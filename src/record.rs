use vstd::prelude::*;

verus! {

/// One entry of the catalog. `path` identifies the entry within an index.
#[derive(Debug)]
pub struct FileRecord {
    pub name: String,
    pub path: String,
    pub extension: String,
    pub size: u64,
    pub created_unix: i64,
    pub modified_unix: i64,
}

impl FileRecord {
    /// A field-by-field copy.
    pub fn copied(&self) -> (r: FileRecord)
        ensures
            r == *self,
    {
        FileRecord {
            name: self.name.clone(),
            path: self.path.clone(),
            extension: self.extension.clone(),
            size: self.size,
            created_unix: self.created_unix,
            modified_unix: self.modified_unix,
        }
    }
}

/// The index of the last `.` of `name` below `n`, or -1.
pub open spec fn last_dot_below(name: Seq<char>, n: int) -> int
    decreases n,
{
    if n <= 0 {
        -1
    } else if name[n - 1] == '.' {
        n - 1
    } else {
        last_dot_below(name, n - 1)
    }
}

/// What follows the last `.` of a file name; empty where there is no dot or
/// the only one starts the name (`.profile`).
pub open spec fn extension_of(name: Seq<char>) -> Seq<char> {
    let d = last_dot_below(name, name.len() as int);
    if d <= 0 {
        Seq::empty()
    } else {
        name.subrange(d + 1, name.len() as int)
    }
}

/// `name` inside directory `dir`, with one `\` between them.
pub open spec fn join_path(dir: Seq<char>, name: Seq<char>) -> Seq<char> {
    if dir.len() > 0 && dir.last() == '\\' {
        dir + name
    } else {
        dir + seq!['\\'] + name
    }
}

proof fn lemma_last_dot_range(name: Seq<char>, n: int)
    requires
        0 <= n <= name.len(),
    ensures
        -1 <= last_dot_below(name, n) < n,
    decreases n,
{
    if n > 0 {
        lemma_last_dot_range(name, n - 1);
    }
}

/// The extension of a file name, as `extension_of` states it.
pub fn file_extension(name: &str) -> (r: String)
    ensures
        r@ == extension_of(name@),
{
    let n = name.unicode_len();
    let mut i: usize = n;
    while i > 0 && name.get_char(i - 1) != '.'
        invariant
            n == name@.len(),
            i <= n,
            last_dot_below(name@, n as int) == last_dot_below(name@, i as int),
        decreases i,
    {
        i = i - 1;
    }
    proof {
        lemma_last_dot_range(name@, n as int);
    }
    if i <= 1 {
        String::new()
    } else {
        String::from_str(name.substring_char(i, n))
    }
}

/// `name` inside directory `dir`, as `join_path` states it.
pub fn join(dir: &str, name: &str) -> (r: String)
    ensures
        r@ == join_path(dir@, name@),
{
    let mut path = String::from_str(dir);
    let n = dir.unicode_len();
    if n == 0 || dir.get_char(n - 1) != '\\' {
        path.append("\\");
        proof {
            reveal_strlit("\\");
        }
    }
    path.append(name);
    proof {
        if n == 0 || dir@.last() != '\\' {
            assert(path@ =~= dir@ + seq!['\\'] + name@);
        }
    }
    path
}

/// The record of a file called `name` inside directory `dir`.
pub fn make_record(dir: &str, name: &str, size: u64, created_unix: i64, modified_unix: i64) -> (r: FileRecord)
    ensures
        r.name@ == name@,
        r.path@ == join_path(dir@, name@),
        r.extension@ == extension_of(name@),
        r.size == size,
        r.created_unix == created_unix,
        r.modified_unix == modified_unix,
{
    let path = join(dir, name);
    FileRecord {
        name: String::from_str(name),
        path,
        extension: file_extension(name),
        size,
        created_unix,
        modified_unix,
    }
}

/// A member of a duplicate group.
#[derive(Debug)]
pub struct DuplicateFile {
    pub name: String,
    pub path: String,
    pub size: u64,
    pub created_unix: i64,
    pub modified_unix: i64,
}

/// The duplicate-scan view of a catalog record.
pub open spec fn dup_file_of(r: FileRecord) -> DuplicateFile {
    DuplicateFile {
        name: r.name,
        path: r.path,
        size: r.size,
        created_unix: r.created_unix,
        modified_unix: r.modified_unix,
    }
}

impl DuplicateFile {
    pub fn from_record(r: &FileRecord) -> (d: DuplicateFile)
        ensures
            d == dup_file_of(*r),
    {
        DuplicateFile {
            name: r.name.clone(),
            path: r.path.clone(),
            size: r.size,
            created_unix: r.created_unix,
            modified_unix: r.modified_unix,
        }
    }

    /// A field-by-field copy.
    pub fn copied(&self) -> (r: DuplicateFile)
        ensures
            r == *self,
    {
        DuplicateFile {
            name: self.name.clone(),
            path: self.path.clone(),
            size: self.size,
            created_unix: self.created_unix,
            modified_unix: self.modified_unix,
        }
    }
}

} // verus!
