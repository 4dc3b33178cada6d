//! What the session store promises.

use crate::cli::session_id;
use crate::filter::{lemma_filter_source, lemma_none_left};
use crate::message::MessageView;
use crate::session::{
    is_newest, newest_first, opened, row_ids, rows_at, sealed, session_file_name, session_of,
    session_rows, sessions_path, temporary_file_name, transcript_path, workspace_path, DirEntry,
    FileView, PathView, RowView, SCHEMA_VERSION,
};
use crate::text::decimal;
use vstd::prelude::*;

verus! {

/// The file of a session stands for that session.
pub proof fn law_a_session_file_names_its_session(id: Seq<char>)
    requires
        id.len() > 0,
    ensures
        session_of(session_file_name(id)) == Some(id),
{
    reveal_strlit(".json");
    assert(session_file_name(id).skip(id.len() as int) =~= ".json"@);
    assert(session_file_name(id).take(id.len() as int) =~= id);
}

/// No two sessions share a file.
pub proof fn law_sessions_have_files_of_their_own(a: Seq<char>, b: Seq<char>)
    requires
        session_file_name(a) == session_file_name(b),
    ensures
        a == b,
{
    assert(session_file_name(a).len() == a.len() + ".json"@.len());
    assert(session_file_name(b).len() == b.len() + ".json"@.len());
    assert(session_file_name(a).take(a.len() as int) =~= a);
    assert(session_file_name(b).take(b.len() as int) =~= b);
}

/// A half-written file is no session.
pub proof fn law_temporary_files_are_no_sessions(id: Seq<char>)
    ensures
        session_of(temporary_file_name(id)) is None,
{
    reveal_strlit(".json");
    reveal_strlit(".tmp");
    let full = temporary_file_name(id);
    let n = full.len() - 5;
    if n > 0 {
        assert(full.skip(n)[4] == full[n + 4]);
        assert(full[n + 4] == 'p');
    }
}

/// The last session is the first one listed.
pub proof fn law_the_last_session_is_listed_first(
    sorted: Seq<RowView>,
    rows: Seq<RowView>,
    k: int,
)
    requires
        newest_first(sorted, rows),
        is_newest(rows, k),
    ensures
        sorted.len() > 0,
        sorted[0] == rows[k],
{
    let time = rows[k].modified;
    let p = |r: RowView| r.modified == time;
    assert(rows_at(sorted, time) == rows_at(rows, time));
    lemma_first_at(rows, time, k);
    // The row is among the sorted ones, and so is their first, which nothing precedes.
    lemma_source(sorted, p, 0);
    let i = choose|i: int| 0 <= i < sorted.len() && #[trigger] sorted[i] == sorted.filter(p)[0];
    let first = sorted[0].modified;
    let q = |r: RowView| r.modified == first;
    assert(rows_at(sorted, first) == rows_at(rows, first));
    lemma_first_at(sorted, first, 0);
    lemma_source(rows, q, 0);
    let j = choose|j: int| 0 <= j < rows.len() && #[trigger] rows[j] == rows.filter(q)[0];
    assert(rows[j].modified <= time);
    assert(sorted[0].modified >= sorted[i].modified);
    assert(first == time);
}

/// The first row of a time comes first among the rows of that time.
proof fn lemma_first_at(rows: Seq<RowView>, time: i128, k: int)
    requires
        0 <= k < rows.len(),
        rows[k].modified == time,
        forall|j: int| 0 <= j < k ==> (#[trigger] rows[j]).modified != time,
    ensures
        rows_at(rows, time).len() > 0,
        rows_at(rows, time)[0] == rows[k],
    decreases rows.len(),
{
    let p = |r: RowView| r.modified == time;
    reveal(Seq::filter);
    let rest = rows.drop_last();
    assert(rows =~= rest.push(rows.last()));
    rest.lemma_filter_push(rows.last(), p);
    if k < rest.len() {
        assert forall|j: int| 0 <= j < k implies (#[trigger] rest[j]).modified != time by {
            assert(rest[j] == rows[j]);
        }
        lemma_first_at(rest, time, k);
    } else {
        assert forall|j: int| 0 <= j < rest.len() implies !p(#[trigger] rest[j]) by {
            assert(rest[j] == rows[j]);
        }
        lemma_none_left(rest, p);
    }
}

proof fn lemma_source(rows: Seq<RowView>, p: spec_fn(RowView) -> bool, i: int)
    requires
        0 <= i < rows.filter(p).len(),
    ensures
        exists|k: int| 0 <= k < rows.len() && #[trigger] rows[k] == rows.filter(p)[i],
        p(rows.filter(p)[i]),
{
    lemma_filter_source(rows, p, i);
    rows.lemma_filter_pred(p, i);
}

/// Transcripts and working directories lie apart.
pub proof fn law_workspaces_lie_apart(
    root: Seq<char>,
    file: Seq<char>,
    id: Seq<char>,
)
    ensures
        (PathView { root, parts: seq!["sessions"@, file] }).parts[0] != (PathView {
            root,
            parts: seq!["workspaces"@, id],
        }).parts[0],
{
    reveal_strlit("sessions");
    reveal_strlit("workspaces");
    assert("sessions"@.len() != "workspaces"@.len());
}

/// Of two numbers of equal length in decimal notation the smaller one comes first in the order of
/// texts.
proof fn lemma_decimal_order(a: nat, b: nat) -> (k: int)
    requires
        a < b,
        decimal(a).len() == decimal(b).len(),
    ensures
        0 <= k < decimal(a).len(),
        decimal(a)[k] < decimal(b)[k],
        forall|i: int| 0 <= i < k ==> decimal(a)[i] == decimal(b)[i],
    decreases b,
{
    if b < 10 {
        0
    } else {
        if a < 10 {
            lemma_decimal_len(b / 10);
        }
        if a / 10 == b / 10 {
            assert(a % 10 < b % 10);
            decimal(a / 10).len() as int
        } else {
            lemma_decimal_order(a / 10, b / 10)
        }
    }
}

proof fn lemma_decimal_len(n: nat)
    ensures
        decimal(n).len() > 0,
{
}

/// Sessions sort by the time at which they began, as long as the times are written with as many
/// digits.
pub proof fn law_session_ids_sort_by_time(a: nat, b: nat, x: Seq<char>, y: Seq<char>)
    requires
        a < b,
        decimal(a).len() == decimal(b).len(),
    ensures
        exists|k: int|
            0 <= k < decimal(a).len() && #[trigger] session_id(a, x)[k] < session_id(b, y)[k]
                && session_id(a, x).take(k) == session_id(b, y).take(k),
{
    let k = lemma_decimal_order(a, b);
    assert(session_id(a, x)[k] == decimal(a)[k]);
    assert(session_id(b, y)[k] == decimal(b)[k]);
    assert(session_id(a, x).take(k) =~= session_id(b, y).take(k));
}

/// What is saved is loaded, message for message.
pub proof fn law_what_is_saved_is_loaded(id: Seq<char>, messages: Seq<MessageView>)
    ensures
        opened(sealed(id, messages)) == Ok::<_, u32>(messages),
{
}

/// A file of another version is refused, with that version.
pub proof fn law_other_versions_are_refused(file: FileView)
    requires
        file.schema_version != SCHEMA_VERSION,
    ensures
        opened(file) == Err::<Seq<MessageView>, _>(file.schema_version),
{
}

/// A file stands for a session exactly where its name is that of the session with `.json` behind
/// it; files under other names stand for none.
pub proof fn law_which_files_are_sessions(name: Seq<char>, id: Seq<char>)
    ensures
        session_of(name) == Some(id) <==> id.len() > 0 && name == id + ".json"@,
        session_file_name(id) == id + ".json"@,
        temporary_file_name(id) == id + ".json"@ + ".tmp"@,
{
    reveal_strlit(".json");
    if session_of(name) == Some(id) {
        assert(name =~= id + ".json"@);
    }
    if id.len() > 0 && name == id + ".json"@ {
        law_a_session_file_names_its_session(id);
    }
}

/// Every session file of a directory is a session with the time of that file, in order; nothing
/// else is.
pub proof fn law_every_session_file_is_listed(entries: Seq<DirEntry>, entry: DirEntry)
    ensures
        session_rows(Seq::empty()) == Seq::<RowView>::empty(),
        session_of(entry.file_name@) matches Some(id) ==> session_rows(entries.push(entry))
            == session_rows(entries).push(RowView { modified: entry.modified, id }),
        session_of(entry.file_name@) is None ==> session_rows(entries.push(entry)) == session_rows(
            entries,
        ),
{
    assert(entries.push(entry).drop_last() =~= entries);
}

proof fn lemma_count_at(rows: Seq<RowView>, row: RowView)
    ensures
        rows_at(rows, row.modified).to_multiset().count(row) == rows.to_multiset().count(row),
    decreases rows.len(),
{
    broadcast use vstd::seq_lib::group_to_multiset_ensures;

    let p = |r: RowView| r.modified == row.modified;
    if rows.len() == 0 {
        assert(rows_at(rows, row.modified) =~= rows);
    } else {
        let rest = rows.drop_last();
        let last = rows.last();
        lemma_count_at(rest, row);
        assert(rows =~= rest.push(last));
        rest.lemma_filter_push(last, p);
    }
}

/// The list holds every session as often as there are files for it, and no other, from the last
/// modified to the first; those of one time stay in the order of the files.
pub proof fn law_the_list_is_sorted_and_complete(
    sorted: Seq<RowView>,
    rows: Seq<RowView>,
    time: i128,
)
    requires
        newest_first(sorted, rows),
    ensures
        sorted.len() == rows.len(),
        sorted.to_multiset() == rows.to_multiset(),
        forall|i: int, j: int|
            0 <= i < j < sorted.len() ==> (#[trigger] sorted[i]).modified >= (
            #[trigger] sorted[j]).modified,
        sorted.filter(|r: RowView| r.modified == time) == rows.filter(
            |r: RowView| r.modified == time,
        ),
{
    broadcast use vstd::seq_lib::group_to_multiset_ensures;

    assert forall|row: RowView|
        sorted.to_multiset().count(row) == rows.to_multiset().count(row) by {
        lemma_count_at(sorted, row);
        lemma_count_at(rows, row);
        assert(rows_at(sorted, row.modified) == rows_at(rows, row.modified));
    }
    assert(sorted.to_multiset() =~= rows.to_multiset());
    assert(sorted.to_multiset().len() == sorted.len());
    assert(rows.to_multiset().len() == rows.len());
    assert(rows_at(sorted, time) == rows_at(rows, time));
}

/// The list names the sessions, one for each row; the last session is one that no other is newer
/// than, and the first of those.
pub proof fn law_which_session_is_the_last(rows: Seq<RowView>, k: int)
    ensures
        row_ids(rows).len() == rows.len(),
        0 <= k < rows.len() ==> row_ids(rows)[k] == rows[k].id,
        is_newest(rows, k) <==> {
            &&& 0 <= k < rows.len()
            &&& forall|j: int| 0 <= j < k ==> (#[trigger] rows[j]).modified < rows[k].modified
            &&& forall|j: int|
                k < j < rows.len() ==> (#[trigger] rows[j]).modified <= rows[k].modified
        },
{
}

/// A session file is of version 1 and holds the session and every message.
pub proof fn law_what_a_session_file_holds(
    id: Seq<char>,
    messages: Seq<MessageView>,
    file: FileView,
)
    ensures
        sealed(id, messages).schema_version == 1,
        sealed(id, messages).id == id,
        sealed(id, messages).context == messages,
        file.schema_version == 1 ==> opened(file) == Ok::<_, u32>(file.context),
        file.schema_version != 1 ==> opened(file) == Err::<Seq<MessageView>, _>(
            file.schema_version,
        ),
{
}

/// Where the store keeps what: the transcripts in one directory, with the file that is written
/// first beside the file of the session, and the working directories in another, one for each
/// session.
pub proof fn law_where_the_store_keeps_what(root: Seq<char>, a: Seq<char>, b: Seq<char>)
    ensures
        sessions_path(root).root == root,
        sessions_path(root).parts == seq!["sessions"@],
        transcript_path(root, session_file_name(a)).root == root,
        transcript_path(root, session_file_name(a)).parts.drop_last() == sessions_path(root).parts,
        transcript_path(root, session_file_name(a)).parts.last() == a + ".json"@,
        transcript_path(root, temporary_file_name(a)).root == root,
        transcript_path(root, temporary_file_name(a)).parts.drop_last() == sessions_path(
            root,
        ).parts,
        transcript_path(root, temporary_file_name(a)) != transcript_path(
            root,
            session_file_name(b),
        ),
        workspace_path(root, a).root == root,
        workspace_path(root, a).parts == seq!["workspaces"@, a],
        workspace_path(root, a) == workspace_path(root, b) ==> a == b,
        transcript_path(root, session_file_name(a)) == transcript_path(root, session_file_name(b))
            ==> a == b,
        workspace_path(root, a) != transcript_path(root, session_file_name(b)),
{
    let file = session_file_name(b);
    reveal_strlit("sessions");
    reveal_strlit("workspaces");
    assert("sessions"@.len() != "workspaces"@.len());
    assert(transcript_path(root, session_file_name(a)).parts.drop_last() =~= seq!["sessions"@]);
    assert(transcript_path(root, temporary_file_name(a)).parts.drop_last() =~= seq!["sessions"@]);
    assert(transcript_path(root, file).parts[1] == file);
    assert(transcript_path(root, session_file_name(a)).parts[1] == session_file_name(a));
    assert(transcript_path(root, temporary_file_name(a)).parts[1] == temporary_file_name(a));
    assert(workspace_path(root, a).parts[1] == a);
    assert(workspace_path(root, b).parts[1] == b);
    assert(workspace_path(root, a).parts[0] == "workspaces"@);
    assert(transcript_path(root, file).parts[0] == "sessions"@);
    if temporary_file_name(a) == file {
        reveal_strlit(".tmp");
        reveal_strlit(".json");
        assert(file[file.len() - 1] == 'n');
        assert(temporary_file_name(a)[file.len() - 1] == 'p');
    }
    if session_file_name(a) == session_file_name(b) {
        law_sessions_have_files_of_their_own(a, b);
    }
}

} // verus!
