//! Sessions: the layout of the store, what a session file holds, and which sessions there are.
//!
//! ```text
//! <root>/
//! ├── sessions/<id>.json    the transcript
//! └── workspaces/<id>/      the working directory of the sandbox
//! ```

use crate::filter::lemma_none_left;
use crate::message::{Context, MessageView};
use crate::text::{decimal, from_chars, texts, to_chars, to_decimal};
use vstd::prelude::*;
use vstd::string::*;

verus! {

/// The version of the format of session files.
pub const SCHEMA_VERSION: u32 = 1;

/// A path of the store: a root and the names to descend by, one after the other.
#[derive(Debug)]
pub struct StorePath {
    pub root: String,
    pub parts: Vec<String>,
}

/// What a [`StorePath`] holds.
pub struct PathView {
    pub root: Seq<char>,
    pub parts: Seq<Seq<char>>,
}

impl View for StorePath {
    type V = PathView;

    open spec fn view(&self) -> PathView {
        PathView { root: self.root@, parts: texts(self.parts@) }
    }
}

/// The session store: where transcripts and working directories lie.
#[derive(Debug)]
pub struct SessionStore {
    root: String,
}

impl Clone for SessionStore {
    fn clone(&self) -> (r: Self)
        ensures
            r.root() == self.root(),
    {
        SessionStore { root: self.root.clone() }
    }
}

/// The name of the file of a session.
pub open spec fn session_file_name(id: Seq<char>) -> Seq<char> {
    id + ".json"@
}

/// The name of the file that a transcript is written to first.
pub open spec fn temporary_file_name(id: Seq<char>) -> Seq<char> {
    session_file_name(id) + ".tmp"@
}

/// The directory of the transcripts, under the root.
pub open spec fn sessions_path(root: Seq<char>) -> PathView {
    PathView { root, parts: seq!["sessions"@] }
}

/// The working directory of a session.
pub open spec fn workspace_path(root: Seq<char>, id: Seq<char>) -> PathView {
    PathView { root, parts: seq!["workspaces"@, id] }
}

/// The file under this name among the transcripts.
pub open spec fn transcript_path(root: Seq<char>, name: Seq<char>) -> PathView {
    PathView { root, parts: seq!["sessions"@, name] }
}

impl SessionStore {
    /// The root of the store.
    pub closed spec fn root(self) -> Seq<char> {
        self.root@
    }

    /// The store at a root.
    pub fn new(root: &str) -> (r: Self)
        ensures
            r.root() == root@,
    {
        SessionStore { root: root.to_owned() }
    }

    /// The usual root.
    pub fn default_root() -> (r: String)
        ensures
            r@ == ".corvus"@,
    {
        ".corvus".to_owned()
    }

    /// The directory of the transcripts.
    pub fn sessions_dir(&self) -> (r: StorePath)
        ensures
            r@ == (PathView { root: self.root(), parts: seq!["sessions"@] }),
            r@ == sessions_path(self.root()),
    {
        let r = StorePath { root: self.root.clone(), parts: vec!["sessions".to_owned()] };
        assert(r@.parts =~= seq!["sessions"@]);
        r
    }

    /// The working directory of a session: in a subtree of its own.
    pub fn workspace_dir(&self, id: &str) -> (r: StorePath)
        ensures
            r@ == (PathView { root: self.root(), parts: seq!["workspaces"@, id@] }),
            r@ == workspace_path(self.root(), id@),
    {
        let r = StorePath {
            root: self.root.clone(),
            parts: vec!["workspaces".to_owned(), id.to_owned()],
        };
        assert(r@.parts =~= seq!["workspaces"@, id@]);
        r
    }

    /// The file of a session.
    pub fn session_path(&self, id: &str) -> (r: StorePath)
        ensures
            r@ == (PathView {
                root: self.root(),
                parts: seq!["sessions"@, session_file_name(id@)],
            }),
            r@ == transcript_path(self.root(), session_file_name(id@)),
    {
        let mut name = id.to_owned();
        name.append(".json");
        let r = StorePath { root: self.root.clone(), parts: vec!["sessions".to_owned(), name] };
        assert(r@.parts =~= seq!["sessions"@, session_file_name(id@)]);
        r
    }

    /// The file that a transcript is written to before it takes the place of the old one.
    pub fn temporary_path(&self, id: &str) -> (r: StorePath)
        ensures
            r@ == (PathView {
                root: self.root(),
                parts: seq!["sessions"@, temporary_file_name(id@)],
            }),
            r@ == transcript_path(self.root(), temporary_file_name(id@)),
    {
        let mut name = id.to_owned();
        name.append(".json");
        name.append(".tmp");
        let r = StorePath { root: self.root.clone(), parts: vec!["sessions".to_owned(), name] };
        assert(r@.parts =~= seq!["sessions"@, temporary_file_name(id@)]);
        r
    }

    /// The directories that a session needs: that of the transcripts and its own.
    pub fn prepare(&self, id: &str) -> (r: Vec<StorePath>)
        ensures
            paths_view(r@) == seq![
                PathView { root: self.root(), parts: seq!["sessions"@] },
                PathView { root: self.root(), parts: seq!["workspaces"@, id@] },
            ],
    {
        let r = vec![self.sessions_dir(), self.workspace_dir(id)];
        assert(paths_view(r@) =~= seq![
            PathView { root: self.root(), parts: seq!["sessions"@] },
            PathView { root: self.root(), parts: seq!["workspaces"@, id@] },
        ]);
        r
    }

    /// What saving a transcript writes: the file of the session, in the current version, first under
    /// a temporary name.
    pub fn save(&self, id: &str, context: &Context) -> (r: Save)
        ensures
            paths_view(r.directories@) == seq![
                PathView { root: self.root(), parts: seq!["sessions"@] },
                PathView { root: self.root(), parts: seq!["workspaces"@, id@] },
            ],
            r.temporary@ == (PathView {
                root: self.root(),
                parts: seq!["sessions"@, temporary_file_name(id@)],
            }),
            r.path@ == (PathView {
                root: self.root(),
                parts: seq!["sessions"@, session_file_name(id@)],
            }),
            r.temporary@ == transcript_path(self.root(), temporary_file_name(id@)),
            r.path@ == transcript_path(self.root(), session_file_name(id@)),
            r.file@ == sealed(id@, context@),
    {
        Save {
            directories: self.prepare(id),
            temporary: self.temporary_path(id),
            path: self.session_path(id),
            file: SessionFile {
                schema_version: SCHEMA_VERSION,
                id: id.to_owned(),
                context: context.clone(),
            },
        }
    }

    /// The transcript of a file of the current version; a file of another version is refused.
    pub fn load(&self, file: SessionFile) -> (r: Result<Context, SchemaMismatch>)
        ensures
            match r {
                Ok(context) => opened(file@) == Ok::<_, u32>(context@),
                Err(error) => opened(file@) == Err::<Seq<MessageView>, _>(error.found),
            },
    {
        if file.schema_version != SCHEMA_VERSION {
            return Err(SchemaMismatch { found: file.schema_version });
        }
        Ok(file.context)
    }

    /// The sessions among the files of the directory of the transcripts, from the last modified to
    /// the first.
    pub fn list(&self, entries: &Vec<DirEntry>) -> (r: Vec<String>)
        ensures
            exists|sorted: Seq<RowView>| #[trigger]
                newest_first(sorted, session_rows(entries@)) && texts(r@) == row_ids(sorted),
    {
        let mut sorted: Vec<(i128, String)> = Vec::new();
        let mut i: usize = 0;
        assert(entries@.take(0) =~= Seq::<DirEntry>::empty());
        assert(rows_view(sorted@) =~= Seq::<RowView>::empty());
        while i < entries.len()
            invariant
                i <= entries.len(),
                newest_first(rows_view(sorted@), session_rows(entries@.take(i as int))),
            decreases entries.len() - i,
        {
            let entry = &entries[i];
            assert(entries@.take(i + 1).drop_last() =~= entries@.take(i as int));
            assert(entries@.take(i + 1).last() == entry);
            if let Some(id) = session_id_of(entry.file_name.as_str()) {
                let modified: i128 = entry.modified;
                let mut at: usize = 0;
                while at < sorted.len() && sorted[at].0 >= modified
                    invariant
                        at <= sorted.len(),
                        forall|j: int| 0 <= j < at ==> (#[trigger] sorted@[j]).0 >= modified,
                    decreases sorted.len() - at,
                {
                    at = at + 1;
                }
                let ghost before = sorted@;
                let ghost row = RowView { modified, id: id@ };
                proof {
                    assert forall|j: int| 0 <= j < at implies (
                    #[trigger] rows_view(before)[j]).modified >= row.modified by {
                        assert(before[j].0 >= modified);
                    }
                    lemma_row_inserted(
                        rows_view(before),
                        session_rows(entries@.take(i as int)),
                        row,
                        at as int,
                    );
                }
                sorted.insert(at, (modified, id));
                assert(rows_view(sorted@) =~= rows_view(before).insert(at as int, row));
            }
            i = i + 1;
        }
        assert(entries@.take(i as int) =~= entries@);
        let mut out: Vec<String> = Vec::new();
        let mut k: usize = 0;
        while k < sorted.len()
            invariant
                k <= sorted.len(),
                texts(out@) == row_ids(rows_view(sorted@)).take(k as int),
            decreases sorted.len() - k,
        {
            let ghost before = out@;
            out.push(sorted[k].1.clone());
            assert(texts(out@) =~= texts(before).push(sorted@[k as int].1@));
            assert(row_ids(rows_view(sorted@)).take(k + 1) =~= row_ids(rows_view(sorted@)).take(
                k as int,
            ).push(sorted@[k as int].1@));
            k = k + 1;
        }
        assert(row_ids(rows_view(sorted@)).take(k as int) =~= row_ids(rows_view(sorted@)));
        out
    }

    /// The session modified last, if there is one.
    pub fn latest(&self, entries: &Vec<DirEntry>) -> (r: Option<String>)
        ensures
            match r {
                Some(id) => exists|k: int| #[trigger]
                    is_newest(session_rows(entries@), k) && session_rows(entries@)[k].id == id@,
                None => session_rows(entries@).len() == 0,
            },
    {
        let mut best: Option<(i128, String)> = None;
        let ghost mut place: int = 0;
        let mut i: usize = 0;
        assert(entries@.take(0) =~= Seq::<DirEntry>::empty());
        while i < entries.len()
            invariant
                i <= entries.len(),
                match best {
                    Some(row) => is_newest(session_rows(entries@.take(i as int)), place)
                        && session_rows(entries@.take(i as int))[place] == (RowView {
                        modified: row.0,
                        id: row.1@,
                    }),
                    None => session_rows(entries@.take(i as int)).len() == 0,
                },
            decreases entries.len() - i,
        {
            let entry = &entries[i];
            assert(entries@.take(i + 1).drop_last() =~= entries@.take(i as int));
            assert(entries@.take(i + 1).last() == entry);
            if let Some(id) = session_id_of(entry.file_name.as_str()) {
                let modified: i128 = entry.modified;
                let newer = match &best {
                    Some(row) => row.0 < modified,
                    None => true,
                };
                if newer {
                    proof {
                        place = session_rows(entries@.take(i as int)).len() as int;
                    }
                    best = Some((modified, id));
                }
            }
            i = i + 1;
        }
        assert(entries@.take(i as int) =~= entries@);
        match best {
            Some(row) => Some(row.1),
            None => None,
        }
    }
}

/// The paths of a row.
pub open spec fn paths_view(paths: Seq<StorePath>) -> Seq<PathView> {
    paths.map_values(|p: StorePath| p@)
}

/// What saving a transcript takes: directories that have to exist, and a file that is written to a
/// temporary path and then moved to its own. So a reader sees the old transcript or the new one.
#[derive(Debug)]
pub struct Save {
    pub directories: Vec<StorePath>,
    pub temporary: StorePath,
    pub path: StorePath,
    pub file: SessionFile,
}

/// What a session file holds.
#[derive(Debug)]
pub struct SessionFile {
    pub schema_version: u32,
    pub id: String,
    pub context: Context,
}

/// What a [`SessionFile`] holds.
pub struct FileView {
    pub schema_version: u32,
    pub id: Seq<char>,
    pub context: Seq<MessageView>,
}

impl View for SessionFile {
    type V = FileView;

    open spec fn view(&self) -> FileView {
        FileView {
            schema_version: self.schema_version,
            id: self.id@,
            context: self.context@,
        }
    }
}

/// The file of a transcript, in the current version.
pub open spec fn sealed(id: Seq<char>, context: Seq<MessageView>) -> FileView {
    FileView { schema_version: SCHEMA_VERSION, id, context }
}

/// The transcript of a file of the current version, or the version that is none.
pub open spec fn opened(file: FileView) -> Result<Seq<MessageView>, u32> {
    if file.schema_version == SCHEMA_VERSION {
        Ok(file.context)
    } else {
        Err(file.schema_version)
    }
}

/// A session file is of a version that cannot be read.
#[derive(Debug, Clone, Copy, PartialEq, Eq, Structural)]
pub struct SchemaMismatch {
    pub found: u32,
}

impl SchemaMismatch {
    /// The error in words.
    pub fn message(&self) -> (r: String)
        ensures
            r@ == "会话 schema 版本不匹配：文件为 "@ + decimal(self.found as nat) + "，当前程序支持 "@ + decimal(
                SCHEMA_VERSION as nat,
            ),
    {
        let mut r = String::new();
        r.append("会话 schema 版本不匹配：文件为 ");
        r.append(to_decimal(self.found as u64).as_str());
        r.append("，当前程序支持 ");
        r.append(to_decimal(SCHEMA_VERSION as u64).as_str());
        assert(r@ =~= "会话 schema 版本不匹配：文件为 "@ + decimal(self.found as nat) + "，当前程序支持 "@ + decimal(
            SCHEMA_VERSION as nat,
        ));
        r
    }
}

/// The session that a file name stands for: the name without the extension `json`. A name of
/// nothing but the extension has none.
pub open spec fn session_of(file_name: Seq<char>) -> Option<Seq<char>> {
    let n = file_name.len() - 5;
    if n > 0 && file_name.skip(n) == ".json"@ {
        Some(file_name.take(n))
    } else {
        None
    }
}

/// The session that a file name stands for.
pub fn session_id_of(file_name: &str) -> (r: Option<String>)
    ensures
        match r {
            Some(id) => session_of(file_name@) == Some(id@),
            None => session_of(file_name@) is None,
        },
{
    let chars = to_chars(file_name);
    if chars.len() <= 5 {
        return None;
    }
    let n: usize = chars.len() - 5;
    proof {
        reveal_strlit(".json");
        if file_name@.skip(n as int) == ".json"@ {
            assert(file_name@[n as int] == file_name@.skip(n as int)[0]);
            assert(file_name@[n + 1] == file_name@.skip(n as int)[1]);
            assert(file_name@[n + 2] == file_name@.skip(n as int)[2]);
            assert(file_name@[n + 3] == file_name@.skip(n as int)[3]);
            assert(file_name@[n + 4] == file_name@.skip(n as int)[4]);
        }
    }
    if chars[n] == '.' && chars[n + 1] == 'j' && chars[n + 2] == 's' && chars[n + 3] == 'o'
        && chars[n + 4] == 'n' {
        assert(file_name@.skip(n as int) =~= ".json"@);
        assert(file_name@.take(n as int) =~= chars@.subrange(0, n as int));
        Some(from_chars(&chars, 0, n))
    } else {
        None
    }
}

/// A file in the directory of the transcripts.
#[derive(Debug)]
pub struct DirEntry {
    pub file_name: String,
    /// When it was last modified, in nanoseconds from the epoch.
    pub modified: i128,
}

/// A session and when it was last modified.
pub struct RowView {
    pub modified: i128,
    pub id: Seq<char>,
}

/// The sessions among the files of a directory, in the order of the files.
pub open spec fn session_rows(entries: Seq<DirEntry>) -> Seq<RowView>
    decreases entries.len(),
{
    if entries.len() == 0 {
        Seq::empty()
    } else {
        let rest = session_rows(entries.drop_last());
        match session_of(entries.last().file_name@) {
            Some(id) => rest.push(RowView { modified: entries.last().modified, id }),
            None => rest,
        }
    }
}

/// The rows modified at this time.
pub open spec fn rows_at(rows: Seq<RowView>, time: i128) -> Seq<RowView> {
    rows.filter(|r: RowView| r.modified == time)
}

/// `sorted` holds the rows from the last modified to the first; rows modified at the same time
/// keep their order.
pub open spec fn newest_first(sorted: Seq<RowView>, rows: Seq<RowView>) -> bool {
    &&& forall|i: int, j: int|
        0 <= i < j < sorted.len() ==> (#[trigger] sorted[i]).modified >= (
        #[trigger] sorted[j]).modified
    &&& forall|time: i128| #[trigger] rows_at(sorted, time) == rows_at(rows, time)
}

/// The sessions of the rows, in order.
pub open spec fn row_ids(rows: Seq<RowView>) -> Seq<Seq<char>> {
    rows.map_values(|r: RowView| r.id)
}

/// The rows whose sessions and times are these.
spec fn rows_view(rows: Seq<(i128, String)>) -> Seq<RowView> {
    rows.map_values(|r: (i128, String)| RowView { modified: r.0, id: r.1@ })
}

/// A row goes in behind the rows that are not older: the sessions stay sorted, and the row comes
/// last among those of its time.
proof fn lemma_row_inserted(sorted: Seq<RowView>, rows: Seq<RowView>, row: RowView, at: int)
    requires
        newest_first(sorted, rows),
        0 <= at <= sorted.len(),
        forall|i: int| 0 <= i < at ==> (#[trigger] sorted[i]).modified >= row.modified,
        at < sorted.len() ==> sorted[at].modified < row.modified,
    ensures
        newest_first(sorted.insert(at, row), rows.push(row)),
{
    let out = sorted.insert(at, row);
    assert forall|time: i128| #[trigger] rows_at(out, time) == rows_at(rows.push(row), time) by {
        let p = |r: RowView| r.modified == time;
        let front = sorted.take(at);
        let back = sorted.skip(at);
        assert(sorted =~= front + back);
        assert(out =~= front.push(row) + back);
        Seq::filter_distributes_over_add(front, back, p);
        Seq::filter_distributes_over_add(front.push(row), back, p);
        front.lemma_filter_push(row, p);
        rows.lemma_filter_push(row, p);
        assert(rows_at(sorted, time) == rows_at(rows, time));
        if time == row.modified {
            assert forall|i: int| 0 <= i < back.len() implies !p(#[trigger] back[i]) by {
                assert(back[i] == sorted[at + i]);
            }
            lemma_none_left(back, p);
            assert(front.filter(p).push(row) + back.filter(p) =~= (front.filter(p) + back.filter(
                p,
            )).push(row));
        }
    }
}

/// The place of the last modified row: the first such row, where several are.
pub open spec fn is_newest(rows: Seq<RowView>, k: int) -> bool {
    &&& 0 <= k < rows.len()
    &&& forall|j: int|
        0 <= j < rows.len() ==> (#[trigger] rows[j]).modified <= rows[k].modified && (j < k
            ==> rows[j].modified < rows[k].modified)
}

} // verus!
