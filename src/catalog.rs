use vstd::prelude::*;
use std::collections::HashMap;
use crate::record::{extension_of, join, join_path, make_record, FileRecord};

verus! {

broadcast use vstd::std_specs::hash::group_hash_axioms;

/// One entry of a volume's metadata catalog: its reference number, the
/// reference number of its parent directory, and whether the slot holds a
/// live entry.
#[derive(Debug)]
pub struct RawEntry {
    pub frn: u64,
    pub parent: u64,
    pub name: String,
    pub is_dir: bool,
    pub in_use: bool,
    pub size: u64,
    pub created_unix: i64,
    pub modified_unix: i64,
}

/// The last live directory entry below `n` with reference number `frn`.
pub open spec fn dir_below(es: Seq<RawEntry>, frn: u64, n: int) -> Option<int>
    decreases n,
{
    if n <= 0 {
        None
    } else if es[n - 1].in_use && es[n - 1].is_dir && es[n - 1].frn == frn {
        Some(n - 1)
    } else {
        dir_below(es, frn, n - 1)
    }
}

/// The full path of directory `frn`, following parent references up to the
/// root in at most `fuel` steps; `None` where the chain breaks or loops.
pub open spec fn dir_path(es: Seq<RawEntry>, root: u64, root_path: Seq<char>, frn: u64, fuel: nat) -> Option<Seq<char>>
    decreases fuel,
{
    if frn == root {
        Some(root_path)
    } else if fuel == 0 {
        None
    } else {
        match dir_below(es, frn, es.len() as int) {
            None => None,
            Some(i) => match dir_path(es, root, root_path, es[i].parent, (fuel - 1) as nat) {
                Some(p) => Some(join_path(p, es[i].name@)),
                None => None,
            },
        }
    }
}

/// The path of entry `i`: its name inside its parent's path.
pub open spec fn entry_path(es: Seq<RawEntry>, root: u64, root_path: Seq<char>, i: int) -> Option<Seq<char>> {
    match dir_path(es, root, root_path, es[i].parent, es.len()) {
        Some(p) => Some(join_path(p, es[i].name@)),
        None => None,
    }
}

/// A live file whose parent chain reaches the root becomes a record.
pub open spec fn becomes_record(es: Seq<RawEntry>, root: u64, root_path: Seq<char>, i: int) -> bool {
    es[i].in_use && !es[i].is_dir && entry_path(es, root, root_path, i) is Some
}

/// How many of the first `n` entries become records.
pub open spec fn records_below(es: Seq<RawEntry>, root: u64, root_path: Seq<char>, n: int) -> Seq<int>
    decreases n,
{
    if n <= 0 {
        Seq::empty()
    } else if becomes_record(es, root, root_path, n - 1) {
        records_below(es, root, root_path, n - 1).push(n - 1)
    } else {
        records_below(es, root, root_path, n - 1)
    }
}

/// Record `r` is what entry `i` stands for.
pub open spec fn record_of_entry(es: Seq<RawEntry>, root: u64, root_path: Seq<char>, i: int, r: FileRecord) -> bool {
    &&& r.name@ == es[i].name@
    &&& Some(r.path@) == entry_path(es, root, root_path, i)
    &&& r.extension@ == extension_of(es[i].name@)
    &&& r.size == es[i].size
    &&& r.created_unix == es[i].created_unix
    &&& r.modified_unix == es[i].modified_unix
}

fn index_dirs(es: &Vec<RawEntry>) -> (m: HashMap<u64, usize>)
    ensures
        forall|k: u64| #[trigger] m@.contains_key(k) <==> dir_below(es@, k, es@.len() as int) is Some,
        forall|k: u64| m@.contains_key(k) ==> m@[k] as int == dir_below(es@, k, es@.len() as int)->Some_0,
{
    let mut m: HashMap<u64, usize> = HashMap::new();
    let mut i: usize = 0;
    while i < es.len()
        invariant
            i <= es@.len(),
            forall|k: u64| #[trigger] m@.contains_key(k) <==> dir_below(es@, k, i as int) is Some,
            forall|k: u64| m@.contains_key(k) ==> m@[k] as int == dir_below(es@, k, i as int)->Some_0,
        decreases es@.len() - i,
    {
        let e = &es[i];
        if e.in_use && e.is_dir {
            m.insert(e.frn, i);
        }
        i = i + 1;
    }
    m
}

fn dir_path_exec(
    es: &Vec<RawEntry>,
    dirs: &HashMap<u64, usize>,
    root: u64,
    root_path: &str,
    frn: u64,
    fuel: usize,
) -> (r: Option<String>)
    requires
        forall|k: u64| #[trigger] dirs@.contains_key(k) <==> dir_below(es@, k, es@.len() as int) is Some,
        forall|k: u64| dirs@.contains_key(k) ==> dirs@[k] as int == dir_below(es@, k, es@.len() as int)->Some_0,
    ensures
        match r {
            Some(s) => dir_path(es@, root, root_path@, frn, fuel as nat) == Some(s@),
            None => dir_path(es@, root, root_path@, frn, fuel as nat) is None,
        },
    decreases fuel,
{
    if frn == root {
        return Some(String::from_str(root_path));
    }
    if fuel == 0 {
        return None;
    }
    let i = match dirs.get(&frn) {
        Some(i) => *i,
        None => {
            return None;
        },
    };
    proof {
        lemma_dir_below_range(es@, frn, es@.len() as int);
    }
    match dir_path_exec(es, dirs, root, root_path, es[i].parent, fuel - 1) {
        Some(p) => Some(join(p.as_str(), es[i].name.as_str())),
        None => None,
    }
}

proof fn lemma_dir_below_range(es: Seq<RawEntry>, frn: u64, n: int)
    requires
        0 <= n <= es.len(),
    ensures
        dir_below(es, frn, n) matches Some(i) ==> 0 <= i < n && es[i].frn == frn,
    decreases n,
{
    if n > 0 {
        lemma_dir_below_range(es, frn, n - 1);
    }
}

/// Turns a volume's metadata catalog into records: deleted slots and
/// directories are skipped, and each file's path is its parent chain joined
/// below `root_path` (the directory whose reference number is `root`).
/// Files whose chain does not reach the root within as many steps as there
/// are entries are left out.
pub fn resolve_catalog(es: &Vec<RawEntry>, root: u64, root_path: &str) -> (r: Vec<FileRecord>)
    ensures
        r@.len() == records_below(es@, root, root_path@, es@.len() as int).len(),
        forall|k: int|
            0 <= k < r@.len() ==> record_of_entry(
                es@,
                root,
                root_path@,
                #[trigger] records_below(es@, root, root_path@, es@.len() as int)[k],
                r@[k],
            ),
{
    let dirs = index_dirs(es);
    let mut out: Vec<FileRecord> = Vec::new();
    let mut i: usize = 0;
    while i < es.len()
        invariant
            i <= es@.len(),
            forall|k: u64| #[trigger] dirs@.contains_key(k) <==> dir_below(es@, k, es@.len() as int) is Some,
            forall|k: u64| dirs@.contains_key(k) ==> dirs@[k] as int == dir_below(es@, k, es@.len() as int)->Some_0,
            out@.len() == records_below(es@, root, root_path@, i as int).len(),
            forall|k: int|
                0 <= k < out@.len() ==> record_of_entry(
                    es@,
                    root,
                    root_path@,
                    #[trigger] records_below(es@, root, root_path@, i as int)[k],
                    out@[k],
                ),
        decreases es@.len() - i,
    {
        let e = &es[i];
        if e.in_use && !e.is_dir {
            match dir_path_exec(es, &dirs, root, root_path, e.parent, es.len()) {
                Some(dir) => {
                    let rec = make_record(dir.as_str(), e.name.as_str(), e.size, e.created_unix, e.modified_unix);
                    out.push(rec);
                },
                None => {},
            }
        }
        i = i + 1;
    }
    out
}

} // verus!
