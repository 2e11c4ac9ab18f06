use vstd::prelude::*;
use vstd::string::*;

verus! {

/// Why a chunk, or a name, was refused before anything touched the disk.
#[derive(Debug, Clone, Copy, PartialEq, Eq, Structural)]
pub enum UploadError {
    /// The upload identifier is empty.
    EmptyIdentifier,
    /// The file name is empty.
    EmptyFileName,
    /// A name holds a path separator or is `.` or `..`.
    UnsafeName,
    /// The upload claims to have no chunks at all.
    NoChunks,
    /// The chunk index is not below the chunk count.
    IndexOutOfRange,
}

/// A path below the application's data directory, one name per level.
pub type DataPath = Seq<Seq<char>>;

/// Where a completed staging file goes.
pub struct Relocation {
    /// The directory to create for the upload.
    pub dest_dir: Vec<String>,
    /// The file's final place, inside `dest_dir`.
    pub dest_file: Vec<String>,
}

/// What to do with one chunk: append it to the staging file, then, for the
/// last chunk, move that file to its final place.
pub struct ChunkPlan {
    /// The directory to create, if missing, before appending.
    pub staging_dir: Vec<String>,
    /// The file the chunk is appended to.
    pub staging_file: Vec<String>,
    /// Where the staging file goes once this chunk is written; set for the
    /// last chunk only.
    pub relocation: Option<Relocation>,
    /// The answer to give the uploader: the file name for the last chunk,
    /// empty before it.
    pub reply: String,
}

/// A chunk plan as plain values.
pub struct PlanView {
    pub staging_dir: DataPath,
    pub staging_file: DataPath,
    pub relocation: Option<(DataPath, DataPath)>,
    pub reply: Seq<char>,
}

pub open spec fn path_view(v: Seq<String>) -> DataPath {
    v.map_values(|s: String| s@)
}

impl View for ChunkPlan {
    type V = PlanView;

    open spec fn view(&self) -> PlanView {
        PlanView {
            staging_dir: path_view(self.staging_dir@),
            staging_file: path_view(self.staging_file@),
            relocation: match self.relocation {
                Some(m) => Some((path_view(m.dest_dir@), path_view(m.dest_file@))),
                None => None,
            },
            reply: self.reply@,
        }
    }
}

/// The directory below the data directory that holds unfinished uploads.
pub open spec fn staging_root() -> Seq<char> {
    seq!['t', 'm', 'p']
}

/// A name that stays one level deep when joined to a path: not empty, not
/// `.` or `..`, and without `/` or `\`.
pub open spec fn safe_segment(s: Seq<char>) -> bool {
    &&& s.len() > 0
    &&& !(s.len() <= 2 && forall|j: int| 0 <= j < s.len() ==> s[j] == '.')
    &&& forall|j: int| 0 <= j < s.len() ==> s[j] != '/' && s[j] != '\\'
}

/// The staging file of the upload `id` for the file `name`.
pub open spec fn staging_path(id: Seq<char>, name: Seq<char>) -> DataPath {
    seq![staging_root(), id, name]
}

/// The final place of the file `name` of the upload `id`.
pub open spec fn final_path(id: Seq<char>, name: Seq<char>) -> DataPath {
    seq![id, name]
}

/// The plan for chunk `index` of `total` of the upload `id` of `name`.
pub open spec fn chunk_plan(id: Seq<char>, name: Seq<char>, index: int, total: int) -> Result<
    PlanView,
    UploadError,
> {
    if id.len() == 0 {
        Err(UploadError::EmptyIdentifier)
    } else if name.len() == 0 {
        Err(UploadError::EmptyFileName)
    } else if !safe_segment(id) || !safe_segment(name) {
        Err(UploadError::UnsafeName)
    } else if total == 0 {
        Err(UploadError::NoChunks)
    } else if index >= total {
        Err(UploadError::IndexOutOfRange)
    } else {
        Ok(
            PlanView {
                staging_dir: seq![staging_root(), id],
                staging_file: staging_path(id, name),
                relocation: if index == total - 1 {
                    Some((seq![id], final_path(id, name)))
                } else {
                    None
                },
                reply: if index == total - 1 {
                    name
                } else {
                    Seq::empty()
                },
            },
        )
    }
}

/// Whether `s` is safe to use as one name in a path.
pub fn is_safe_segment(s: &str) -> (r: bool)
    ensures
        r == safe_segment(s@),
{
    let n = s.unicode_len();
    if n == 0 {
        return false;
    }
    let mut i: usize = 0;
    let mut dots = true;
    while i < n
        invariant
            n == s@.len(),
            i <= n,
            forall|j: int| 0 <= j < i ==> s@[j] != '/' && s@[j] != '\\',
            dots == (forall|j: int| 0 <= j < i ==> s@[j] == '.'),
        decreases n - i,
    {
        let c = s.get_char(i);
        if c == '/' || c == '\\' {
            return false;
        }
        if c != '.' {
            dots = false;
        }
        i = i + 1;
    }
    !(dots && n <= 2)
}

/// Checks an upload identifier and a file name, in that order.
fn check_names(id: &str, file_name: &str) -> (r: Result<(), UploadError>)
    ensures
        r == (if id@.len() == 0 {
            Err(UploadError::EmptyIdentifier)
        } else if file_name@.len() == 0 {
            Err(UploadError::EmptyFileName)
        } else if !safe_segment(id@) || !safe_segment(file_name@) {
            Err(UploadError::UnsafeName)
        } else {
            Ok(())
        }),
{
    if id.unicode_len() == 0 {
        return Err(UploadError::EmptyIdentifier);
    }
    if file_name.unicode_len() == 0 {
        return Err(UploadError::EmptyFileName);
    }
    if !is_safe_segment(id) || !is_safe_segment(file_name) {
        return Err(UploadError::UnsafeName);
    }
    Ok(())
}

/// Plans the handling of chunk `chunk_index` of `total_chunks` of the upload
/// `id` of the file `file_name`. Unfinished uploads are kept apart by
/// identifier under the staging directory; the last chunk moves the file to a
/// directory named after the identifier.
pub fn plan_chunk(id: &str, file_name: &str, chunk_index: usize, total_chunks: usize) -> (r:
    Result<ChunkPlan, UploadError>)
    ensures
        match r {
            Ok(p) => chunk_plan(id@, file_name@, chunk_index as int, total_chunks as int) == Ok::<
                PlanView,
                UploadError,
            >(p@),
            Err(e) => chunk_plan(id@, file_name@, chunk_index as int, total_chunks as int) == Err::<
                PlanView,
                UploadError,
            >(e),
        },
{
    match check_names(id, file_name) {
        Err(e) => {
            return Err(e);
        },
        Ok(()) => {},
    }
    if total_chunks == 0 {
        return Err(UploadError::NoChunks);
    }
    if chunk_index >= total_chunks {
        return Err(UploadError::IndexOutOfRange);
    }
    let root = String::from_str("tmp");
    proof {
        reveal_strlit("tmp");
    }
    assert(root@ =~= staging_root());
    let staging_dir = vec![root.clone(), String::from_str(id)];
    let staging_file = vec![root, String::from_str(id), String::from_str(file_name)];
    let last = chunk_index == total_chunks - 1;
    let relocation = if last {
        let dest_dir = vec![String::from_str(id)];
        let dest_file = vec![String::from_str(id), String::from_str(file_name)];
        assert(path_view(dest_dir@) =~= seq![id@]);
        assert(path_view(dest_file@) =~= final_path(id@, file_name@));
        Some(Relocation { dest_dir, dest_file })
    } else {
        None
    };
    let reply = if last {
        String::from_str(file_name)
    } else {
        String::new()
    };
    assert(path_view(staging_dir@) =~= seq![staging_root(), id@]);
    assert(path_view(staging_file@) =~= staging_path(id@, file_name@));
    Ok(ChunkPlan { staging_dir, staging_file, relocation, reply })
}

/// The directory that holds the files of the book `book_id`, below the data
/// directory; a name that would leave that level is refused.
pub fn book_dir(book_id: &str) -> (r: Result<Vec<String>, UploadError>)
    ensures
        match r {
            Ok(p) => safe_segment(book_id@) && path_view(p@) == seq![book_id@],
            Err(e) => !safe_segment(book_id@) && e == UploadError::UnsafeName,
        },
{
    if !is_safe_segment(book_id) {
        return Err(UploadError::UnsafeName);
    }
    let p = vec![String::from_str(book_id)];
    assert(path_view(p@) =~= seq![book_id@]);
    Ok(p)
}

/// The directory, below the user's data directory, that holds background
/// pictures.
pub open spec fn background_dir_path() -> DataPath {
    seq![
        seq!['B', 'o', 'o', 'k', 'c', 'a', 's', 'e'],
        seq!['b', 'a', 'c', 'k', 'g', 'r', 'o', 'u', 'n', 'd'],
    ]
}

/// Where the background picture `file_name` is stored, below the user's data
/// directory; an empty or unsafe name is refused.
pub fn background_image_path(file_name: &str) -> (r: Result<Vec<String>, UploadError>)
    ensures
        match r {
            Ok(p) => safe_segment(file_name@) && path_view(p@) == background_dir_path().push(
                file_name@,
            ),
            Err(e) => !safe_segment(file_name@) && e == (if file_name@.len() == 0 {
                UploadError::EmptyFileName
            } else {
                UploadError::UnsafeName
            }),
        },
{
    if file_name.unicode_len() == 0 {
        return Err(UploadError::EmptyFileName);
    }
    if !is_safe_segment(file_name) {
        return Err(UploadError::UnsafeName);
    }
    let app = String::from_str("Bookcase");
    let dir = String::from_str("background");
    proof {
        reveal_strlit("Bookcase");
        reveal_strlit("background");
    }
    assert(app@ =~= background_dir_path()[0]);
    assert(dir@ =~= background_dir_path()[1]);
    let p = vec![app, dir, String::from_str(file_name)];
    assert(path_view(p@) =~= background_dir_path().push(file_name@));
    Ok(p)
}

/// Files below the data directory: content by path.
pub type FilesView = Map<DataPath, Seq<u8>>;

/// The files after `chunk` is handled by the plan `p`: appended to the
/// staging file (created where missing), which then moves to its final place
/// where the plan says so.
pub open spec fn apply_plan(files: FilesView, p: PlanView, chunk: Seq<u8>) -> FilesView {
    let content = if files.contains_key(p.staging_file) {
        files[p.staging_file] + chunk
    } else {
        chunk
    };
    let appended = files.insert(p.staging_file, content);
    match p.relocation {
        Some(r) => appended.remove(p.staging_file).insert(r.1, content),
        None => appended,
    }
}

/// The chunks' bytes, one after another.
pub open spec fn concat_chunks(chunks: Seq<Seq<u8>>) -> Seq<u8>
    decreases chunks.len(),
{
    if chunks.len() == 0 {
        Seq::empty()
    } else {
        concat_chunks(chunks.drop_last()) + chunks.last()
    }
}

/// The files after the first `k` of `chunks` are handled in order, as chunks
/// of an upload of `chunks.len()` chunks.
pub open spec fn write_chunks(
    files: FilesView,
    id: Seq<char>,
    name: Seq<char>,
    chunks: Seq<Seq<u8>>,
    k: nat,
) -> FilesView
    decreases k,
{
    if k == 0 {
        files
    } else {
        let before = write_chunks(files, id, name, chunks, (k - 1) as nat);
        match chunk_plan(id, name, k - 1, chunks.len() as int) {
            Ok(p) => apply_plan(before, p, chunks[k - 1]),
            Err(_) => before,
        }
    }
}

proof fn lemma_staging_prefix(
    files: FilesView,
    id: Seq<char>,
    name: Seq<char>,
    chunks: Seq<Seq<u8>>,
    k: nat,
)
    requires
        safe_segment(id),
        safe_segment(name),
        k < chunks.len(),
        !files.contains_key(staging_path(id, name)),
    ensures
        k == 0 ==> !write_chunks(files, id, name, chunks, k).contains_key(staging_path(id, name)),
        k > 0 ==> write_chunks(files, id, name, chunks, k).contains_key(staging_path(id, name))
            && write_chunks(files, id, name, chunks, k)[staging_path(id, name)] == concat_chunks(
            chunks.take(k as int),
        ),
    decreases k,
{
    if k > 0 {
        let j = (k - 1) as nat;
        lemma_staging_prefix(files, id, name, chunks, j);
        assert(chunks.take(k as int).drop_last() =~= chunks.take(j as int));
        assert(chunks.take(k as int).last() == chunks[j as int]);
        if j == 0 {
            assert(concat_chunks(chunks.take(0)) =~= Seq::<u8>::empty());
            assert(Seq::<u8>::empty() + chunks[0] =~= chunks[0]);
        }
    }
}

/// Writing chunks `0..N` in order, from no staging file, leaves one file at
/// the final place holding all their bytes in order and no staging file; the
/// last chunk alone gets a non-empty reply.
pub proof fn lemma_chunks_reassemble(
    files: FilesView,
    id: Seq<char>,
    name: Seq<char>,
    chunks: Seq<Seq<u8>>,
)
    requires
        safe_segment(id),
        safe_segment(name),
        chunks.len() >= 1,
        !files.contains_key(staging_path(id, name)),
    ensures
        write_chunks(files, id, name, chunks, chunks.len()).contains_key(final_path(id, name)),
        write_chunks(files, id, name, chunks, chunks.len())[final_path(id, name)]
            == concat_chunks(chunks),
        !write_chunks(files, id, name, chunks, chunks.len()).contains_key(staging_path(id, name)),
        forall|i: int|
            0 <= i < chunks.len() ==> (#[trigger] chunk_plan(id, name, i, chunks.len() as int) is Ok)
                && (chunk_plan(id, name, i, chunks.len() as int)->Ok_0.reply.len() > 0 <==> i
                == chunks.len() - 1),
{
    let n = chunks.len();
    let j = (n - 1) as nat;
    lemma_staging_prefix(files, id, name, chunks, j);
    assert(chunks.take(n as int) =~= chunks);
    assert(chunks.take(n as int).drop_last() =~= chunks.take(j as int));
    if j == 0 {
        assert(concat_chunks(chunks.take(0)) =~= Seq::<u8>::empty());
        assert(Seq::<u8>::empty() + chunks[0] =~= chunks[0]);
    }
    assert(staging_path(id, name) != final_path(id, name)) by {
        assert(staging_path(id, name).len() != final_path(id, name).len());
    }
}

/// An upload that claims no chunks is refused before anything is written.
pub proof fn lemma_no_chunks_refused(id: Seq<char>, name: Seq<char>, index: int)
    ensures
        chunk_plan(id, name, index, 0) is Err,
        safe_segment(id) && safe_segment(name) ==> chunk_plan(id, name, index, 0) == Err::<
            PlanView,
            UploadError,
        >(UploadError::NoChunks),
{
}

} // verus!
