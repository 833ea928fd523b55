use vstd::prelude::*;
use crate::record::FileRecord;
use crate::search::{
    clamp_limit, first_n, lemma_unrestricted_selects_all, search, search_result, select, unrestricted,
    FilterView,
    SearchFilter, DEFAULT_SEARCH_LIMIT,
};

verus! {

/// Where the single index build slot stands.
#[derive(Debug, Clone, Copy, PartialEq, Eq, Structural)]
pub enum IndexingState {
    Idle,
    Running,
    Ready,
    Failed,
}

/// Errors of the index and of searches over it.
#[derive(Debug, Clone, Copy, PartialEq, Eq, Structural)]
pub enum IndexError {
    /// The drive designator is not a letter, optionally followed by `:` and a separator.
    InvalidArgument,
    /// A build is already running.
    AlreadyRunning,
    /// No build has completed yet.
    NotReady,
}

/// What pollers read of the index.
#[derive(Debug)]
pub struct IndexStatus {
    pub indexing: bool,
    pub ready: bool,
    pub indexed_count: u64,
    pub last_error: Option<String>,
}

/// The catalog and the state of the build that fills it.
///
/// `committed` is the last completed catalog; a running build fills
/// `pending`, which replaces it whole on success and is dropped on failure.
#[derive(Debug)]
pub struct Indexer {
    pub state: IndexingState,
    pub committed: Option<Vec<FileRecord>>,
    pub pending: Vec<FileRecord>,
    pub visible_count: u64,
    pub last_error: Option<String>,
    pub drive: Option<u8>,
}

pub open spec fn is_letter(c: char) -> bool {
    ('a' <= c <= 'z') || ('A' <= c <= 'Z')
}

/// A drive designator: one ASCII letter, optionally followed by `:`, and
/// after the colon optionally by `\` or `/`.
pub open spec fn valid_drive(s: Seq<char>) -> bool {
    &&& 1 <= s.len() <= 3
    &&& is_letter(s[0])
    &&& s.len() >= 2 ==> s[1] == ':'
    &&& s.len() == 3 ==> (s[2] == '\\' || s[2] == '/')
}

/// The upper-case ASCII code of a letter.
pub open spec fn upper_code(c: char) -> u8 {
    if 'a' <= c <= 'z' {
        ((c as u32) - 32) as u8
    } else {
        c as u32 as u8
    }
}

/// No two records share a path: the path is the catalog's key.
pub open spec fn paths_distinct(s: Seq<FileRecord>) -> bool {
    forall|i: int, j: int| 0 <= i < j < s.len() ==> #[trigger] s[i].path@ != #[trigger] s[j].path@
}

pub open spec fn has_path(s: Seq<FileRecord>, path: Seq<char>) -> bool {
    exists|i: int| 0 <= i < s.len() && #[trigger] s[i].path@ == path
}

/// The last error as pollers see it: an empty message counts as none.
pub open spec fn visible_error(e: Option<String>) -> Option<String> {
    match e {
        Some(m) => if m@.len() == 0 {
            None
        } else {
            Some(m)
        },
        None => None,
    }
}

pub open spec fn committed_len(ix: Indexer) -> nat {
    match ix.committed {
        Some(v) => v@.len(),
        None => 0,
    }
}

/// The filter that `search_files` builds from its optional arguments: an
/// absent extension restricts nothing, an absent bound is the end of its
/// range, and an absent limit is `DEFAULT_SEARCH_LIMIT`.
pub open spec fn requested_filter(
    query: Seq<char>,
    extension: Option<Seq<char>>,
    min_size: Option<u64>,
    max_size: Option<u64>,
    min_created_unix: Option<i64>,
    max_created_unix: Option<i64>,
    limit: Option<u32>,
) -> FilterView {
    FilterView {
        query,
        extension: match extension {
            Some(e) => e,
            None => Seq::empty(),
        },
        min_size: match min_size {
            Some(v) => v,
            None => 0,
        },
        max_size: match max_size {
            Some(v) => v,
            None => u64::MAX,
        },
        min_created_unix: match min_created_unix {
            Some(v) => v,
            None => i64::MIN,
        },
        max_created_unix: match max_created_unix {
            Some(v) => v,
            None => i64::MAX,
        },
        limit: match limit {
            Some(v) => v,
            None => DEFAULT_SEARCH_LIMIT,
        },
    }
}

pub open spec fn str_opt_view(s: Option<&str>) -> Option<Seq<char>> {
    match s {
        Some(e) => Some(e@),
        None => None,
    }
}

/// Once a build has completed and no other is running, the visible count is
/// the number of records that an unrestricted search returns when its limit
/// admits them all.
pub proof fn lemma_count_matches_unrestricted_search(ix: Indexer, f: FilterView)
    requires
        ix.wf(),
        ix.state != IndexingState::Running,
        ix.committed is Some,
        unrestricted(f),
        ix.visible_count <= clamp_limit(f.limit),
    ensures
        search_result(ix.committed.unwrap()@, f).len() == ix.visible_count,
{
    lemma_unrestricted_selects_all(ix.committed.unwrap()@, f);
}

proof fn lemma_select_from(s: Seq<FileRecord>, f: FilterView)
    ensures
        forall|x: int| 0 <= x < select(s, f).len() ==> has_path(s, #[trigger] select(s, f)[x].path@),
        paths_distinct(s) ==> paths_distinct(select(s, f)),
    decreases s.len(),
{
    if s.len() > 0 {
        let rest = s.drop_last();
        lemma_select_from(rest, f);
        let sr = select(rest, f);
        assert forall|x: int| 0 <= x < sr.len() implies has_path(s, #[trigger] sr[x].path@) by {
            let i = choose|i: int| 0 <= i < rest.len() && #[trigger] rest[i].path@ == sr[x].path@;
            assert(s[i] == rest[i]);
        }
        if paths_distinct(s) {
            assert(paths_distinct(rest)) by {
                assert forall|i: int, j: int| 0 <= i < j < rest.len() implies #[trigger] rest[i].path@
                    != #[trigger] rest[j].path@ by {
                    assert(s[i] == rest[i] && s[j] == rest[j]);
                }
            }
            assert forall|x: int| 0 <= x < sr.len() implies #[trigger] sr[x].path@ != s.last().path@ by {
                let i = choose|i: int| 0 <= i < rest.len() && #[trigger] rest[i].path@ == sr[x].path@;
                assert(s[i] == rest[i]);
            }
        }
        if record_matches_last(s, f) {
            let r = sr.push(s.last());
            assert(select(s, f) == r);
            assert forall|x: int| 0 <= x < r.len() implies has_path(s, #[trigger] r[x].path@) by {
                if x == sr.len() {
                    assert(s[s.len() - 1] == s.last());
                }
            }
        }
    }
}

spec fn record_matches_last(s: Seq<FileRecord>, f: FilterView) -> bool {
    crate::search::record_matches(s.last(), f)
}

/// A search never returns two records with one path: the catalog it reads
/// has none.
pub proof fn lemma_search_paths_distinct(ix: Indexer, f: FilterView)
    requires
        ix.wf(),
        ix.committed is Some,
    ensures
        paths_distinct(search_result(ix.committed->Some_0@, f)),
{
    let c = ix.committed->Some_0@;
    lemma_select_from(c, f);
    let sel = select(c, f);
    let r = first_n(sel, clamp_limit(f.limit));
    if sel.len() > clamp_limit(f.limit) {
        assert forall|i: int, j: int| 0 <= i < j < r.len() implies #[trigger] r[i].path@ != #[trigger] r[j].path@ by {
            assert(r[i] == sel[i] && r[j] == sel[j]);
        }
    }
}

impl Indexer {
    /// The index's invariant.
    pub open spec fn wf(&self) -> bool {
        &&& (self.state == IndexingState::Idle ==> self.committed is None)
        &&& (self.state == IndexingState::Ready ==> self.committed is Some)
        &&& committed_len(*self) <= u64::MAX
        &&& paths_distinct(self.pending@)
        &&& (self.committed matches Some(c) ==> paths_distinct(c@))
        &&& (self.state == IndexingState::Running ==> self.visible_count == self.pending@.len())
        &&& (self.state != IndexingState::Running ==> self.pending@.len() == 0
            && self.visible_count == committed_len(*self))
    }

    pub open spec fn status_of(&self) -> IndexStatus {
        IndexStatus {
            indexing: self.state == IndexingState::Running,
            ready: self.committed is Some,
            indexed_count: self.visible_count,
            last_error: visible_error(self.last_error),
        }
    }

    /// An index with no catalog and no build.
    pub fn new() -> (r: Indexer)
        ensures
            r.wf(),
            r.state == IndexingState::Idle,
            r.committed is None,
            r.last_error is None,
    {
        Indexer {
            state: IndexingState::Idle,
            committed: None,
            pending: Vec::new(),
            visible_count: 0,
            last_error: None,
            drive: None,
        }
    }

    pub fn is_indexing(&self) -> (r: bool)
        ensures
            r == (self.state == IndexingState::Running),
    {
        self.state == IndexingState::Running
    }

    pub fn is_index_ready(&self) -> (r: bool)
        ensures
            r == self.committed is Some,
    {
        self.committed.is_some()
    }

    pub fn indexed_file_count(&self) -> (r: u64)
        ensures
            r == self.visible_count,
    {
        self.visible_count
    }

    /// The message of the last failed build; `None` where there is none or
    /// it is empty.
    pub fn last_error(&self) -> (r: Option<String>)
        ensures
            r == visible_error(self.last_error),
    {
        match &self.last_error {
            Some(e) => {
                if e.as_str().unicode_len() == 0 {
                    None
                } else {
                    Some(e.clone())
                }
            },
            None => None,
        }
    }

    /// A snapshot of the flags, the visible count and the last error.
    pub fn current_status(&self) -> (r: IndexStatus)
        ensures
            r == self.status_of(),
    {
        IndexStatus {
            indexing: self.is_indexing(),
            ready: self.is_index_ready(),
            indexed_count: self.indexed_file_count(),
            last_error: self.last_error(),
        }
    }

    /// Searches the last completed catalog; fails with `NotReady` when no
    /// build has completed.
    pub fn search_files(
        &self,
        query: &str,
        extension: Option<&str>,
        min_size: Option<u64>,
        max_size: Option<u64>,
        min_created_unix: Option<i64>,
        max_created_unix: Option<i64>,
        limit: Option<u32>,
    ) -> (r: Result<Vec<FileRecord>, IndexError>)
        ensures
            self.committed is None ==> r == Err::<Vec<FileRecord>, IndexError>(IndexError::NotReady),
            self.committed is Some ==> r is Ok && r->Ok_0@ == search_result(
                self.committed->Some_0@,
                requested_filter(
                    query@,
                    str_opt_view(extension),
                    min_size,
                    max_size,
                    min_created_unix,
                    max_created_unix,
                    limit,
                ),
            ),
    {
        let records = match &self.committed {
            Some(c) => c,
            None => {
                return Err(IndexError::NotReady);
            },
        };
        let f = SearchFilter {
            query: String::from_str(query),
            extension: match extension {
                Some(e) => String::from_str(e),
                None => String::new(),
            },
            min_size: match min_size {
                Some(v) => v,
                None => 0,
            },
            max_size: match max_size {
                Some(v) => v,
                None => u64::MAX,
            },
            min_created_unix: match min_created_unix {
                Some(v) => v,
                None => i64::MIN,
            },
            max_created_unix: match max_created_unix {
                Some(v) => v,
                None => i64::MAX,
            },
            limit: match limit {
                Some(v) => v,
                None => DEFAULT_SEARCH_LIMIT,
            },
        };
        let found = search(records, &f);
        assert(f@ == requested_filter(
            query@,
            str_opt_view(extension),
            min_size,
            max_size,
            min_created_unix,
            max_created_unix,
            limit,
        ));
        Ok(found)
    }

    /// Opens the build slot for `drive`. On success the last error is
    /// cleared, the visible count is 0 and the previous catalog stays
    /// searchable until the new build completes.
    pub fn start_indexing(&mut self, drive: &str) -> (r: Result<IndexStatus, IndexError>)
        requires
            old(self).wf(),
        ensures
            final(self).wf(),
            !valid_drive(drive@) ==> r == Err::<IndexStatus, IndexError>(IndexError::InvalidArgument),
            valid_drive(drive@) && old(self).state == IndexingState::Running ==> r == Err::<
                IndexStatus,
                IndexError,
            >(IndexError::AlreadyRunning),
            r is Err ==> *final(self) == *old(self),
            valid_drive(drive@) && old(self).state != IndexingState::Running ==> {
                &&& final(self).state == IndexingState::Running
                &&& final(self).committed == old(self).committed
                &&& final(self).pending@.len() == 0
                &&& final(self).visible_count == 0
                &&& final(self).last_error is None
                &&& final(self).drive == Some(upper_code(drive@[0]))
                &&& r == Ok::<IndexStatus, IndexError>(final(self).status_of())
            },
    {
        let letter = match parse_drive(drive) {
            Some(l) => l,
            None => {
                return Err(IndexError::InvalidArgument);
            },
        };
        if self.state == IndexingState::Running {
            return Err(IndexError::AlreadyRunning);
        }
        self.state = IndexingState::Running;
        self.pending = Vec::new();
        self.visible_count = 0;
        self.last_error = None;
        self.drive = Some(letter);
        Ok(self.current_status())
    }

    /// Adds one fully built record to the running build and makes it
    /// visible in the count. Returns false, changing nothing, when no build
    /// is running, the count is at its maximum, or the build already holds
    /// a record with the same path.
    pub fn push_record(&mut self, rec: FileRecord) -> (r: bool)
        requires
            old(self).wf(),
        ensures
            final(self).wf(),
            r == (old(self).state == IndexingState::Running && old(self).visible_count < u64::MAX
                && !has_path(old(self).pending@, rec.path@)),
            r ==> {
                &&& final(self).pending@ == old(self).pending@.push(rec)
                &&& final(self).visible_count == old(self).visible_count + 1
                &&& final(self).state == old(self).state
                &&& final(self).committed == old(self).committed
                &&& final(self).last_error == old(self).last_error
                &&& final(self).drive == old(self).drive
            },
            !r ==> *final(self) == *old(self),
    {
        if self.state != IndexingState::Running || self.visible_count == u64::MAX {
            return false;
        }
        if contains_path(&self.pending, &rec.path) {
            return false;
        }
        self.pending.push(rec);
        self.visible_count = self.visible_count + 1;
        true
    }

    /// Ends the running build successfully: its records replace the catalog.
    /// Does nothing when no build is running.
    pub fn finish_indexing(&mut self)
        requires
            old(self).wf(),
        ensures
            final(self).wf(),
            old(self).state == IndexingState::Running ==> {
                &&& final(self).state == IndexingState::Ready
                &&& final(self).committed == Some(old(self).pending)
                &&& final(self).visible_count == old(self).visible_count
                &&& final(self).last_error == old(self).last_error
                &&& final(self).drive == old(self).drive
            },
            old(self).state != IndexingState::Running ==> *final(self) == *old(self),
    {
        if self.state != IndexingState::Running {
            return;
        }
        let mut built: Vec<FileRecord> = Vec::new();
        core::mem::swap(&mut built, &mut self.pending);
        self.committed = Some(built);
        self.state = IndexingState::Ready;
    }

    /// Ends the running build with an error: its records are dropped, the
    /// previous catalog (if any) stays searchable and `message` becomes the
    /// last error. Does nothing when no build is running.
    pub fn fail_indexing(&mut self, message: String)
        requires
            old(self).wf(),
        ensures
            final(self).wf(),
            old(self).state == IndexingState::Running ==> {
                &&& final(self).state == IndexingState::Failed
                &&& final(self).committed == old(self).committed
                &&& final(self).visible_count == committed_len(*old(self))
                &&& final(self).last_error == Some(message)
                &&& final(self).drive == old(self).drive
            },
            old(self).state != IndexingState::Running ==> *final(self) == *old(self),
    {
        if self.state != IndexingState::Running {
            return;
        }
        self.pending = Vec::new();
        let count: u64 = match &self.committed {
            Some(v) => v.len() as u64,
            None => 0,
        };
        self.visible_count = count;
        self.last_error = Some(message);
        self.state = IndexingState::Failed;
    }
}

/// Whether some record of `records` has `path`.
pub fn contains_path(records: &Vec<FileRecord>, path: &String) -> (r: bool)
    ensures
        r == has_path(records@, path@),
{
    let mut i: usize = 0;
    while i < records.len()
        invariant
            i <= records@.len(),
            forall|k: int| 0 <= k < i ==> #[trigger] records@[k].path@ != path@,
        decreases records@.len() - i,
    {
        if records[i].path == *path {
            return true;
        }
        i = i + 1;
    }
    false
}

/// The upper-case code of the drive letter, or `None` when `drive` is not a
/// drive designator.
pub fn parse_drive(drive: &str) -> (r: Option<u8>)
    ensures
        r == (if valid_drive(drive@) { Some(upper_code(drive@[0])) } else { None::<u8> }),
{
    let n = drive.unicode_len();
    if n < 1 || n > 3 {
        return None;
    }
    let c = drive.get_char(0);
    if n >= 2 && drive.get_char(1) != ':' {
        return None;
    }
    if n == 3 {
        let sep = drive.get_char(2);
        if sep != '\\' && sep != '/' {
            return None;
        }
    }
    if 'a' <= c && c <= 'z' {
        Some(((c as u32) - 32) as u8)
    } else if 'A' <= c && c <= 'Z' {
        Some(c as u32 as u8)
    } else {
        None
    }
}

} // verus!
