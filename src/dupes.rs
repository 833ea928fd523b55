use vstd::prelude::*;
use crate::record::{dup_file_of, DuplicateFile, FileRecord};

verus! {

/// The smallest size a candidate has when the caller gives none (50 MiB):
/// fingerprinting many small files costs more than it finds.
pub const DEFAULT_MIN_DUPLICATE_SIZE: u64 = 52428800;

/// Default and bounds of the number of groups one scan returns.
pub const DEFAULT_MAX_GROUPS: u32 = 200;
pub const MAX_GROUPS_LIMIT: u32 = 1000;

/// Default and bounds of the number of members listed per group.
pub const DEFAULT_MAX_FILES_PER_GROUP: u32 = 80;
pub const MIN_FILES_PER_GROUP: u32 = 2;
pub const MAX_FILES_PER_GROUP: u32 = 400;

/// The bounds of one duplicate scan.
#[derive(Debug, Clone, Copy, PartialEq, Eq, Structural)]
pub struct DuplicateParams {
    pub min_size: u64,
    pub max_groups: u32,
    pub max_files_per_group: u32,
}

pub open spec fn clamp_u32(v: u32, lo: u32, hi: u32) -> u32 {
    if v < lo {
        lo
    } else if v > hi {
        hi
    } else {
        v
    }
}

/// Fills in the defaults and brings the group bounds into range.
pub fn duplicate_params(min_size: Option<u64>, max_groups: Option<u32>, max_files_per_group: Option<u32>) -> (r: DuplicateParams)
    ensures
        r.min_size == (match min_size {
            Some(v) => v,
            None => DEFAULT_MIN_DUPLICATE_SIZE,
        }),
        r.max_groups == clamp_u32(
            match max_groups {
                Some(v) => v,
                None => DEFAULT_MAX_GROUPS,
            },
            1,
            MAX_GROUPS_LIMIT,
        ),
        r.max_files_per_group == clamp_u32(
            match max_files_per_group {
                Some(v) => v,
                None => DEFAULT_MAX_FILES_PER_GROUP,
            },
            MIN_FILES_PER_GROUP,
            MAX_FILES_PER_GROUP,
        ),
{
    let min_size = match min_size {
        Some(v) => v,
        None => DEFAULT_MIN_DUPLICATE_SIZE,
    };
    let g = match max_groups {
        Some(v) => v,
        None => DEFAULT_MAX_GROUPS,
    };
    let f = match max_files_per_group {
        Some(v) => v,
        None => DEFAULT_MAX_FILES_PER_GROUP,
    };
    DuplicateParams {
        min_size,
        max_groups: if g < 1 { 1 } else if g > MAX_GROUPS_LIMIT { MAX_GROUPS_LIMIT } else { g },
        max_files_per_group: if f < MIN_FILES_PER_GROUP {
            MIN_FILES_PER_GROUP
        } else if f > MAX_FILES_PER_GROUP {
            MAX_FILES_PER_GROUP
        } else {
            f
        },
    }
}

pub open spec fn at_least(min_size: u64) -> spec_fn(FileRecord) -> bool {
    |r: FileRecord| r.size >= min_size
}

/// The records of at least `min_size` bytes, in catalog order, as duplicate
/// candidates.
pub open spec fn candidates_of(records: Seq<FileRecord>, min_size: u64) -> Seq<DuplicateFile> {
    records.filter(at_least(min_size)).map_values(|r: FileRecord| dup_file_of(r))
}

/// How many files of `fs` have `size` bytes.
pub open spec fn size_count(fs: Seq<DuplicateFile>, size: u64) -> nat {
    fs.filter(|g: DuplicateFile| g.size == size).len()
}

pub open spec fn size_shared_in(fs: Seq<DuplicateFile>) -> spec_fn(DuplicateFile) -> bool {
    |f: DuplicateFile| size_count(fs, f.size) >= 2
}

/// The files whose size at least one other file of `fs` has.
pub open spec fn size_collisions_of(fs: Seq<DuplicateFile>) -> Seq<DuplicateFile> {
    fs.filter(size_shared_in(fs))
}

/// Files `i` and `j` have the same size and fingerprints that are both
/// known and equal.
pub open spec fn same_content(fs: Seq<DuplicateFile>, ks: Seq<Option<Vec<u8>>>, i: int, j: int) -> bool {
    &&& 0 <= i < fs.len()
    &&& 0 <= j < fs.len()
    &&& i < ks.len()
    &&& j < ks.len()
    &&& fs[i].size == fs[j].size
    &&& ks[i] is Some
    &&& ks[j] is Some
    &&& ks[i]->Some_0@ == ks[j]->Some_0@
}

/// Some other file has the same size and an equal partial fingerprint: only
/// such a file needs its whole content read.
pub open spec fn needs_full(fs: Seq<DuplicateFile>, ps: Seq<Vec<u8>>, i: int) -> bool {
    exists|j: int|
        0 <= j < fs.len() && j != i && #[trigger] fs[j].size == fs[i].size && ps[j]@ == ps[i]@
}

/// The indices below `n` whose file has the same content as file `i`, in
/// increasing order.
pub open spec fn members_below(fs: Seq<DuplicateFile>, ks: Seq<Option<Vec<u8>>>, i: int, n: int) -> Seq<int>
    decreases n,
{
    if n <= 0 {
        Seq::empty()
    } else {
        let rest = members_below(fs, ks, i, n - 1);
        if same_content(fs, ks, i, n - 1) {
            rest.push(n - 1)
        } else {
            rest
        }
    }
}

pub open spec fn members(fs: Seq<DuplicateFile>, ks: Seq<Option<Vec<u8>>>, i: int) -> Seq<int> {
    members_below(fs, ks, i, fs.len() as int)
}

/// File `i` heads a group: another file has its content, and no earlier one.
pub open spec fn is_leader(fs: Seq<DuplicateFile>, ks: Seq<Option<Vec<u8>>>, i: int) -> bool {
    &&& (exists|j: int| j != i && #[trigger] same_content(fs, ks, i, j))
    &&& (forall|j: int| 0 <= j < i ==> !#[trigger] same_content(fs, ks, i, j))
}

/// The group leaders below `n`, in increasing order.
pub open spec fn leaders_below(fs: Seq<DuplicateFile>, ks: Seq<Option<Vec<u8>>>, n: int) -> Seq<int>
    decreases n,
{
    if n <= 0 {
        Seq::empty()
    } else {
        let rest = leaders_below(fs, ks, n - 1);
        if is_leader(fs, ks, n - 1) {
            rest.push(n - 1)
        } else {
            rest
        }
    }
}

pub open spec fn leaders(fs: Seq<DuplicateFile>, ks: Seq<Option<Vec<u8>>>) -> Seq<int> {
    leaders_below(fs, ks, fs.len() as int)
}

pub proof fn lemma_members_below(fs: Seq<DuplicateFile>, ks: Seq<Option<Vec<u8>>>, i: int, n: int)
    requires
        0 <= n,
    ensures
        forall|j: int| #[trigger] members_below(fs, ks, i, n).contains(j) <==> (j < n && same_content(fs, ks, i, j)),
        forall|a: int|
            0 <= a < members_below(fs, ks, i, n).len() ==> 0 <= #[trigger] members_below(fs, ks, i, n)[a] < n,
        members_below(fs, ks, i, n).len() <= n,
    decreases n,
{
    if n > 0 {
        lemma_members_below(fs, ks, i, n - 1);
        let rest = members_below(fs, ks, i, n - 1);
        if same_content(fs, ks, i, n - 1) {
            assert forall|j: int| #[trigger] rest.push(n - 1).contains(j) <==> (j < n && same_content(fs, ks, i, j)) by {
                vstd::seq_lib::lemma_seq_contains_after_push(rest, n - 1, j);
            }
        }
    }
}

pub proof fn lemma_leaders_below(fs: Seq<DuplicateFile>, ks: Seq<Option<Vec<u8>>>, n: int)
    requires
        0 <= n,
    ensures
        forall|j: int| #[trigger] leaders_below(fs, ks, n).contains(j) <==> (0 <= j < n && is_leader(fs, ks, j)),
        forall|a: int|
            0 <= a < leaders_below(fs, ks, n).len() ==> 0 <= #[trigger] leaders_below(fs, ks, n)[a] < n
            && is_leader(fs, ks, leaders_below(fs, ks, n)[a]),
        leaders_below(fs, ks, n).len() <= n,
    decreases n,
{
    if n > 0 {
        lemma_leaders_below(fs, ks, n - 1);
        let rest = leaders_below(fs, ks, n - 1);
        if is_leader(fs, ks, n - 1) {
            assert forall|j: int| #[trigger] rest.push(n - 1).contains(j) <==> (0 <= j < n && is_leader(fs, ks, j)) by {
                vstd::seq_lib::lemma_seq_contains_after_push(rest, n - 1, j);
            }
        }
    }
}

/// Keeps the records of at least `min_size` bytes, in catalog order.
pub fn duplicate_candidates(records: &Vec<FileRecord>, min_size: u64) -> (r: Vec<DuplicateFile>)
    ensures
        r@ == candidates_of(records@, min_size),
{
    let mut out: Vec<DuplicateFile> = Vec::new();
    let mut i: usize = 0;
    while i < records.len()
        invariant
            i <= records@.len(),
            out@ == candidates_of(records@.take(i as int), min_size),
        decreases records@.len() - i,
    {
        proof {
            assert(records@.take(i + 1).drop_last() =~= records@.take(i as int));
            reveal(Seq::filter);
        }
        if records[i].size >= min_size {
            let d = DuplicateFile::from_record(&records[i]);
            out.push(d);
            proof {
                let p = records@.take(i as int).filter(at_least(min_size));
                assert(records@.take(i + 1).filter(at_least(min_size)) == p.push(records@[i as int]));
                assert(p.push(records@[i as int]).map_values(|r: FileRecord| dup_file_of(r))
                    =~= p.map_values(|r: FileRecord| dup_file_of(r)).push(dup_file_of(records@[i as int])));
            }
        } else {
            assert(records@.take(i + 1).filter(at_least(min_size)) == records@.take(i as int).filter(at_least(min_size)));
        }
        i = i + 1;
    }
    assert(records@.take(records@.len() as int) =~= records@);
    out
}

/// The number of files of `files` with `size` bytes.
fn count_size(files: &Vec<DuplicateFile>, size: u64) -> (r: usize)
    ensures
        r == size_count(files@, size),
{
    let mut c: usize = 0;
    let mut j: usize = 0;
    while j < files.len()
        invariant
            j <= files@.len(),
            c == size_count(files@.take(j as int), size),
            c <= j,
        decreases files@.len() - j,
    {
        proof {
            assert(files@.take(j + 1).drop_last() =~= files@.take(j as int));
            reveal(Seq::filter);
        }
        if files[j].size == size {
            c = c + 1;
        }
        j = j + 1;
    }
    assert(files@.take(files@.len() as int) =~= files@);
    c
}

/// Keeps the files whose size another file shares: a size held by one file
/// alone cannot be a duplicate.
pub fn size_collisions(files: &Vec<DuplicateFile>) -> (r: Vec<DuplicateFile>)
    ensures
        r@ == size_collisions_of(files@),
{
    let mut out: Vec<DuplicateFile> = Vec::new();
    let mut i: usize = 0;
    while i < files.len()
        invariant
            i <= files@.len(),
            out@ == files@.take(i as int).filter(size_shared_in(files@)),
        decreases files@.len() - i,
    {
        proof {
            assert(files@.take(i + 1).drop_last() =~= files@.take(i as int));
            reveal(Seq::filter);
        }
        if count_size(files, files[i].size) >= 2 {
            out.push(files[i].copied());
        }
        i = i + 1;
    }
    assert(files@.take(files@.len() as int) =~= files@);
    out
}

/// Byte-wise equality of two fingerprints.
pub fn same_bytes(a: &Vec<u8>, b: &Vec<u8>) -> (r: bool)
    ensures
        r == (a@ == b@),
{
    if a.len() != b.len() {
        return false;
    }
    let mut i: usize = 0;
    while i < a.len()
        invariant
            a@.len() == b@.len(),
            i <= a@.len(),
            forall|k: int| 0 <= k < i ==> a@[k] == b@[k],
        decreases a@.len() - i,
    {
        if a[i] != b[i] {
            return false;
        }
        i = i + 1;
    }
    assert(a@ =~= b@);
    true
}

/// For each file, whether another file has its size and an equal partial
/// fingerprint (`partials[i]` is that of `files[i]`). Files marked false
/// differ from every other file and need no full read.
pub fn partial_collisions(files: &Vec<DuplicateFile>, partials: &Vec<Vec<u8>>) -> (r: Vec<bool>)
    requires
        partials@.len() == files@.len(),
    ensures
        r@.len() == files@.len(),
        forall|i: int| 0 <= i < files@.len() ==> r@[i] == needs_full(files@, partials@, i),
{
    let n = files.len();
    let mut out: Vec<bool> = Vec::new();
    let mut i: usize = 0;
    while i < n
        invariant
            n == files@.len(),
            partials@.len() == n,
            i <= n,
            out@.len() == i,
            forall|k: int| 0 <= k < i ==> out@[k] == needs_full(files@, partials@, k),
        decreases n - i,
    {
        let mut found = false;
        let mut j: usize = 0;
        while j < n && !found
            invariant
                n == files@.len(),
                partials@.len() == n,
                i < n,
                j <= n,
                found ==> needs_full(files@, partials@, i as int),
                !found ==> forall|k: int|
                    0 <= k < j && k != i ==> !(#[trigger] files@[k].size == files@[i as int].size
                        && partials@[k]@ == partials@[i as int]@),
            decreases n - j + (if found { 0int } else { 1int }),
        {
            if j != i && files[j].size == files[i].size && same_bytes(&partials[j], &partials[i]) {
                found = true;
            } else {
                j = j + 1;
            }
        }
        out.push(found);
        i = i + 1;
    }
    out
}

/// A set of files with the same size and content.
///
/// `file_count` and `total_bytes` count every member; `files` lists at most
/// the scan's per-group maximum of them, most recently modified first.
#[derive(Debug)]
pub struct DuplicateGroup {
    pub group_id: u64,
    pub size: u64,
    pub total_bytes: u64,
    pub file_count: u64,
    pub files: Vec<DuplicateFile>,
}

pub ghost struct GroupView {
    pub group_id: u64,
    pub size: u64,
    pub total_bytes: u64,
    pub file_count: u64,
    pub files: Seq<DuplicateFile>,
}

impl View for DuplicateGroup {
    type V = GroupView;

    open spec fn view(&self) -> GroupView {
        GroupView {
            group_id: self.group_id,
            size: self.size,
            total_bytes: self.total_bytes,
            file_count: self.file_count,
            files: self.files@,
        }
    }
}

/// `a * b`, or `u64::MAX` where the product does not fit.
pub open spec fn saturating_product(a: u64, b: nat) -> u64 {
    if a * b > u64::MAX {
        u64::MAX
    } else {
        (a * b) as u64
    }
}

/// A modification time as an unsigned key with the same order.
pub open spec fn recency(t: i64) -> u64 {
    (t - i64::MIN) as u64
}

/// The recency keys of the members `m`, in member order.
pub open spec fn member_recency(fs: Seq<DuplicateFile>, m: Seq<int>) -> Seq<u64> {
    m.map_values(|j: int| recency(fs[j].modified_unix))
}

/// The listed members: at most `max_files`, most recently modified first,
/// members modified at the same time in catalog order.
pub open spec fn listed_members(fs: Seq<DuplicateFile>, m: Seq<int>, max_files: nat) -> Seq<DuplicateFile> {
    ranked(member_recency(fs, m), max_files).map_values(|k: int| fs[m[k]])
}

/// The group that file `l` heads; `group_id` is the leader's index.
pub open spec fn group_of(fs: Seq<DuplicateFile>, ks: Seq<Option<Vec<u8>>>, l: int, max_files: nat) -> GroupView {
    let m = members(fs, ks, l);
    GroupView {
        group_id: l as u64,
        size: fs[l].size,
        total_bytes: saturating_product(fs[l].size, m.len()),
        file_count: m.len() as u64,
        files: listed_members(fs, m, max_files),
    }
}

/// The total bytes of every group, in leader order.
pub open spec fn group_totals(fs: Seq<DuplicateFile>, ks: Seq<Option<Vec<u8>>>) -> Seq<u64> {
    leaders(fs, ks).map_values(|l: int| saturating_product(fs[l].size, members(fs, ks, l).len()))
}

/// `c` is not yet chosen and comes first among the largest that are not.
pub open spec fn is_best(totals: Seq<u64>, chosen: Seq<int>, c: int) -> bool {
    &&& 0 <= c < totals.len()
    &&& !chosen.contains(c)
    &&& forall|d: int|
        0 <= d < totals.len() && !chosen.contains(d) ==> totals[d] < totals[c] || (totals[d] == totals[c]
            && c <= d)
}

/// The first `k` positions of `totals` by decreasing total; equal totals
/// keep their order.
pub open spec fn ranked(totals: Seq<u64>, k: nat) -> Seq<int>
    decreases k,
{
    if k == 0 {
        Seq::empty()
    } else {
        let prev = ranked(totals, (k - 1) as nat);
        if exists|c: int| is_best(totals, prev, c) {
            prev.push(choose|c: int| is_best(totals, prev, c))
        } else {
            prev
        }
    }
}

pub proof fn lemma_best_unique(totals: Seq<u64>, chosen: Seq<int>, a: int, b: int)
    requires
        is_best(totals, chosen, a),
        is_best(totals, chosen, b),
    ensures
        a == b,
{
}

pub proof fn lemma_ranked_in_range(totals: Seq<u64>, k: nat)
    ensures
        forall|x: int| 0 <= x < ranked(totals, k).len() ==> 0 <= #[trigger] ranked(totals, k)[x] < totals.len(),
    decreases k,
{
    if k > 0 {
        lemma_ranked_in_range(totals, (k - 1) as nat);
        let prev = ranked(totals, (k - 1) as nat);
        if exists|c: int| is_best(totals, prev, c) {
            let c = choose|c: int| is_best(totals, prev, c);
            assert(is_best(totals, prev, c));
        }
    }
}

/// The best unchosen position below `m`, where there is an unchosen one.
proof fn best_below(totals: Seq<u64>, chosen: Seq<int>, m: int) -> (c: int)
    requires
        0 <= m <= totals.len(),
        exists|d: int| 0 <= d < m && !chosen.contains(d),
    ensures
        0 <= c < m,
        !chosen.contains(c),
        forall|d: int|
            0 <= d < m && !chosen.contains(d) ==> totals[d] < totals[c] || (totals[d] == totals[c] && c <= d),
    decreases m,
{
    if exists|d: int| 0 <= d < m - 1 && !chosen.contains(d) {
        let c = best_below(totals, chosen, m - 1);
        if !chosen.contains(m - 1) && totals[m - 1] > totals[c] {
            m - 1
        } else {
            c
        }
    } else {
        m - 1
    }
}

/// `ranked` takes `min(k, totals.len())` distinct positions.
pub proof fn lemma_ranked_len(totals: Seq<u64>, k: nat)
    ensures
        ranked(totals, k).len() == if k <= totals.len() { k } else { totals.len() },
        ranked(totals, k).no_duplicates(),
    decreases k,
{
    lemma_ranked_in_range(totals, k);
    if k > 0 {
        let prev = ranked(totals, (k - 1) as nat);
        lemma_ranked_len(totals, (k - 1) as nat);
        lemma_ranked_in_range(totals, (k - 1) as nat);
        let n = totals.len() as int;
        if prev.len() < n {
            if forall|d: int| 0 <= d < n ==> prev.contains(d) {
                vstd::set_lib::lemma_int_range(0, n);
                prev.unique_seq_to_set();
                assert(vstd::set_lib::set_int_range(0, n).subset_of(prev.to_set()));
                vstd::set_lib::lemma_len_subset(vstd::set_lib::set_int_range(0, n), prev.to_set());
            }
            let c = best_below(totals, prev, n);
            assert(is_best(totals, prev, c));
            let b = choose|b: int| is_best(totals, prev, b);
            assert(ranked(totals, k) == prev.push(b));
            assert(ranked(totals, k).no_duplicates()) by {
                let r = prev.push(b);
                assert forall|i: int, j: int| 0 <= i < r.len() && 0 <= j < r.len() && i != j implies r[i] != r[j] by {
                    if i < prev.len() && j < prev.len() {
                    } else if i == prev.len() {
                        assert(prev.contains(r[j]) || j == i);
                    } else {
                        assert(prev.contains(r[i]));
                    }
                }
            }
        } else {
            if exists|c: int| is_best(totals, prev, c) {
                let c = choose|c: int| is_best(totals, prev, c);
                prev.unique_seq_to_set();
                vstd::set_lib::lemma_int_range(0, n);
                assert(prev.to_set().subset_of(vstd::set_lib::set_int_range(0, n)));
                vstd::set_lib::lemma_len_subset(prev.to_set().insert(c), vstd::set_lib::set_int_range(0, n));
            }
        }
    }
}

pub proof fn lemma_ranked_stable(totals: Seq<u64>, k: nat, m: nat)
    requires
        k <= m,
        !exists|c: int| is_best(totals, ranked(totals, k), c),
    ensures
        ranked(totals, m) == ranked(totals, k),
    decreases m - k,
{
    if k < m {
        lemma_ranked_stable(totals, k, (m - 1) as nat);
    }
}

/// The positions in `totals` of the `max` largest totals, largest first;
/// equal totals keep their order.
pub fn rank_by_total(totals: &Vec<u64>, max: usize) -> (r: Vec<usize>)
    ensures
        r@.len() == ranked(totals@, max as nat).len(),
        forall|k: int| 0 <= k < r@.len() ==> r@[k] as int == #[trigger] ranked(totals@, max as nat)[k],
{
    let n = totals.len();
    let mut taken: Vec<bool> = Vec::new();
    let mut t: usize = 0;
    while t < n
        invariant
            n == totals@.len(),
            t <= n,
            taken@.len() == t,
            forall|c: int| 0 <= c < t ==> !taken@[c],
        decreases n - t,
    {
        taken.push(false);
        t = t + 1;
    }
    let mut order: Vec<usize> = Vec::new();
    while order.len() < max
        invariant
            n == totals@.len(),
            taken@.len() == n,
            order@.len() <= max,
            order@.len() == ranked(totals@, order@.len() as nat).len(),
            forall|k: int| 0 <= k < order@.len() ==> order@[k] as int == #[trigger] ranked(totals@, order@.len() as nat)[k],
            forall|c: int| 0 <= c < n ==> taken@[c] == ranked(totals@, order@.len() as nat).contains(c),
        decreases max - order@.len(),
    {
        let ghost prev = ranked(totals@, order@.len() as nat);
        let mut best: usize = 0;
        let mut found = false;
        let mut c: usize = 0;
        while c < n
            invariant
                n == totals@.len(),
                taken@.len() == n,
                c <= n,
                forall|d: int| 0 <= d < n ==> taken@[d] == prev.contains(d),
                found ==> best < c && !prev.contains(best as int),
                found ==> forall|d: int|
                    0 <= d < c && !prev.contains(d) ==> totals@[d] < totals@[best as int] || (totals@[d]
                        == totals@[best as int] && best <= d),
                !found ==> forall|d: int| 0 <= d < c ==> prev.contains(d),
            decreases n - c,
        {
            if !taken[c] && (!found || totals[c] > totals[best]) {
                best = c;
                found = true;
            }
            c = c + 1;
        }
        if !found {
            proof {
                assert(!exists|x: int| is_best(totals@, prev, x));
                lemma_ranked_stable(totals@, order@.len() as nat, max as nat);
            }
            return order;
        }
        proof {
            assert(is_best(totals@, prev, best as int));
            let ch = choose|x: int| is_best(totals@, prev, x);
            lemma_best_unique(totals@, prev, ch, best as int);
            assert(ranked(totals@, (order@.len() + 1) as nat) == prev.push(best as int));
        }
        order.push(best);
        taken.set(best, true);
        proof {
            assert forall|d: int| 0 <= d < n implies taken@[d] == prev.push(best as int).contains(d) by {
                vstd::seq_lib::lemma_seq_contains_after_push(prev, best as int, d);
            }
        }
    }
    order
}

fn same_exec(files: &Vec<DuplicateFile>, keys: &Vec<Option<Vec<u8>>>, i: usize, j: usize) -> (r: bool)
    requires
        keys@.len() == files@.len(),
        i < files@.len(),
        j < files@.len(),
    ensures
        r == same_content(files@, keys@, i as int, j as int),
{
    if files[i].size != files[j].size {
        return false;
    }
    match (&keys[i], &keys[j]) {
        (Some(a), Some(b)) => same_bytes(a, b),
        _ => false,
    }
}

/// The indices of the files with the same content as file `i`, in order.
fn members_of(files: &Vec<DuplicateFile>, keys: &Vec<Option<Vec<u8>>>, i: usize) -> (r: Vec<usize>)
    requires
        keys@.len() == files@.len(),
        i < files@.len(),
    ensures
        r@.len() == members(files@, keys@, i as int).len(),
        forall|k: int| 0 <= k < r@.len() ==> r@[k] as int == #[trigger] members(files@, keys@, i as int)[k],
{
    let n = files.len();
    let mut out: Vec<usize> = Vec::new();
    let mut j: usize = 0;
    while j < n
        invariant
            n == files@.len(),
            keys@.len() == n,
            i < n,
            j <= n,
            out@.len() == members_below(files@, keys@, i as int, j as int).len(),
            forall|k: int| 0 <= k < out@.len() ==> out@[k] as int == #[trigger] members_below(files@, keys@, i as int, j as int)[k],
        decreases n - j,
    {
        if same_exec(files, keys, i, j) {
            out.push(j);
        }
        j = j + 1;
    }
    out
}

fn is_leader_exec(files: &Vec<DuplicateFile>, keys: &Vec<Option<Vec<u8>>>, i: usize) -> (r: bool)
    requires
        keys@.len() == files@.len(),
        i < files@.len(),
    ensures
        r == is_leader(files@, keys@, i as int),
{
    let n = files.len();
    let mut partner = false;
    let mut j: usize = 0;
    while j < n
        invariant
            n == files@.len(),
            keys@.len() == n,
            i < n,
            j <= n,
            partner == exists|k: int| 0 <= k < j && k != i && #[trigger] same_content(files@, keys@, i as int, k),
            forall|k: int| 0 <= k < j && k < i ==> !#[trigger] same_content(files@, keys@, i as int, k),
        decreases n - j,
    {
        if same_exec(files, keys, i, j) && j != i {
            if j < i {
                return false;
            }
            partner = true;
        }
        j = j + 1;
    }
    partner
}

/// The group leaders, in increasing order.
fn leaders_exec(files: &Vec<DuplicateFile>, keys: &Vec<Option<Vec<u8>>>) -> (r: Vec<usize>)
    requires
        keys@.len() == files@.len(),
    ensures
        r@.len() == leaders(files@, keys@).len(),
        forall|k: int| 0 <= k < r@.len() ==> r@[k] as int == #[trigger] leaders(files@, keys@)[k],
{
    let n = files.len();
    let mut out: Vec<usize> = Vec::new();
    let mut i: usize = 0;
    while i < n
        invariant
            n == files@.len(),
            keys@.len() == n,
            i <= n,
            out@.len() == leaders_below(files@, keys@, i as int).len(),
            forall|k: int| 0 <= k < out@.len() ==> out@[k] as int == #[trigger] leaders_below(files@, keys@, i as int)[k],
        decreases n - i,
    {
        if is_leader_exec(files, keys, i) {
            out.push(i);
        }
        i = i + 1;
    }
    out
}

fn saturating_mul(a: u64, b: usize) -> (r: u64)
    ensures
        r == saturating_product(a, b as nat),
{
    match a.checked_mul(b as u64) {
        Some(p) => p,
        None => u64::MAX,
    }
}

/// Builds the group that file `l` heads.
fn build_group(files: &Vec<DuplicateFile>, keys: &Vec<Option<Vec<u8>>>, l: usize, max_files: usize) -> (g: DuplicateGroup)
    requires
        keys@.len() == files@.len(),
        l < files@.len(),
    ensures
        g@ == group_of(files@, keys@, l as int, max_files as nat),
{
    let m = members_of(files, keys, l);
    proof {
        lemma_members_below(files@, keys@, l as int, files@.len() as int);
    }
    let ghost mm = members(files@, keys@, l as int);
    let mut stamps: Vec<u64> = Vec::new();
    let mut k: usize = 0;
    while k < m.len()
        invariant
            m@.len() == mm.len(),
            forall|x: int| 0 <= x < m@.len() ==> m@[x] as int == #[trigger] mm[x],
            forall|x: int| 0 <= x < mm.len() ==> 0 <= #[trigger] mm[x] < files@.len(),
            k <= m@.len(),
            stamps@ =~= member_recency(files@, mm).take(k as int),
        decreases m@.len() - k,
    {
        assert(0 <= mm[k as int] < files@.len());
        let t = files[m[k]].modified_unix;
        stamps.push((t as i128 - i64::MIN as i128) as u64);
        k = k + 1;
    }
    assert(stamps@ =~= member_recency(files@, mm));
    let order = rank_by_total(&stamps, max_files);
    proof {
        lemma_ranked_in_range(stamps@, max_files as nat);
    }
    let ghost rk = ranked(stamps@, max_files as nat);
    let mut listed: Vec<DuplicateFile> = Vec::new();
    let mut k: usize = 0;
    while k < order.len()
        invariant
            m@.len() == mm.len(),
            forall|x: int| 0 <= x < m@.len() ==> m@[x] as int == #[trigger] mm[x],
            forall|x: int| 0 <= x < mm.len() ==> 0 <= #[trigger] mm[x] < files@.len(),
            stamps@.len() == mm.len(),
            order@.len() == rk.len(),
            forall|x: int| 0 <= x < order@.len() ==> order@[x] as int == #[trigger] rk[x],
            forall|x: int| 0 <= x < rk.len() ==> 0 <= #[trigger] rk[x] < stamps@.len(),
            k <= order@.len(),
            listed@ =~= rk.take(k as int).map_values(|x: int| files@[mm[x]]),
        decreases order@.len() - k,
    {
        assert(0 <= rk[k as int] < mm.len());
        assert(0 <= mm[rk[k as int]] < files@.len());
        listed.push(files[m[order[k]]].copied());
        k = k + 1;
    }
    assert(rk.take(k as int) =~= rk);
    DuplicateGroup {
        group_id: l as u64,
        size: files[l].size,
        total_bytes: saturating_mul(files[l].size, m.len()),
        file_count: m.len() as u64,
        files: listed,
    }
}

impl DuplicateGroup {
    /// A field-by-field copy.
    pub fn copied(&self) -> (r: DuplicateGroup)
        ensures
            r@ == self@,
    {
        let mut files: Vec<DuplicateFile> = Vec::new();
        let mut k: usize = 0;
        while k < self.files.len()
            invariant
                k <= self.files@.len(),
                files@ =~= self.files@.take(k as int),
            decreases self.files@.len() - k,
        {
            files.push(self.files[k].copied());
            k = k + 1;
        }
        assert(self.files@.take(k as int) =~= self.files@);
        DuplicateGroup {
            group_id: self.group_id,
            size: self.size,
            total_bytes: self.total_bytes,
            file_count: self.file_count,
            files,
        }
    }
}

/// Groups the files whose sizes and full fingerprints agree
/// (`keys[i]` is that of `files[i]`, `None` where it was not computed), and
/// returns the `max_groups` groups of most total bytes, largest first, each
/// listing at most `max_files` members.
pub fn group_duplicates(
    files: &Vec<DuplicateFile>,
    keys: &Vec<Option<Vec<u8>>>,
    max_groups: usize,
    max_files: usize,
) -> (r: Vec<DuplicateGroup>)
    requires
        keys@.len() == files@.len(),
    ensures
        r@.len() == ranked(group_totals(files@, keys@), max_groups as nat).len(),
        forall|k: int|
            0 <= k < r@.len() ==> (#[trigger] r@[k])@ == group_of(
                files@,
                keys@,
                leaders(files@, keys@)[ranked(group_totals(files@, keys@), max_groups as nat)[k]],
                max_files as nat,
            ),
{
    let ls = leaders_exec(files, keys);
    proof {
        lemma_leaders_below(files@, keys@, files@.len() as int);
    }
    let ghost lv = leaders(files@, keys@);
    let mut groups: Vec<DuplicateGroup> = Vec::new();
    let mut totals: Vec<u64> = Vec::new();
    let mut i: usize = 0;
    while i < ls.len()
        invariant
            keys@.len() == files@.len(),
            ls@.len() == lv.len(),
            lv == leaders(files@, keys@),
            forall|x: int| 0 <= x < ls@.len() ==> ls@[x] as int == #[trigger] lv[x],
            forall|x: int| 0 <= x < lv.len() ==> 0 <= #[trigger] lv[x] < files@.len(),
            i <= ls@.len(),
            groups@.len() == i,
            totals@ =~= group_totals(files@, keys@).take(i as int),
            forall|x: int| 0 <= x < i ==> (#[trigger] groups@[x])@ == group_of(files@, keys@, lv[x], max_files as nat),
        decreases ls@.len() - i,
    {
        assert(0 <= lv[i as int] < files@.len());
        let g = build_group(files, keys, ls[i], max_files);
        totals.push(g.total_bytes);
        groups.push(g);
        i = i + 1;
    }
    assert(totals@ =~= group_totals(files@, keys@));
    let order = rank_by_total(&totals, max_groups);
    let mut out: Vec<DuplicateGroup> = Vec::new();
    let mut k: usize = 0;
    while k < order.len()
        invariant
            k <= order@.len(),
            totals@ == group_totals(files@, keys@),
            groups@.len() == lv.len(),
            lv == leaders(files@, keys@),
            order@.len() == ranked(totals@, max_groups as nat).len(),
            forall|x: int| 0 <= x < order@.len() ==> order@[x] as int == #[trigger] ranked(totals@, max_groups as nat)[x],
            forall|x: int| 0 <= x < groups@.len() ==> (#[trigger] groups@[x])@ == group_of(files@, keys@, lv[x], max_files as nat),
            out@.len() == k,
            forall|x: int|
                0 <= x < k ==> (#[trigger] out@[x])@ == group_of(
                    files@,
                    keys@,
                    lv[ranked(totals@, max_groups as nat)[x]],
                    max_files as nat,
                ),
        decreases order@.len() - k,
    {
        let c = order[k];
        proof {
            lemma_ranked_in_range(totals@, max_groups as nat);
            assert(0 <= ranked(totals@, max_groups as nat)[k as int] < totals@.len());
        }
        out.push(groups[c].copied());
        k = k + 1;
    }
    out
}

/// The first file with the same content as file `i`, up to index `k`.
proof fn first_same(fs: Seq<DuplicateFile>, ks: Seq<Option<Vec<u8>>>, i: int, k: int) -> (l: int)
    requires
        same_content(fs, ks, i, k),
    ensures
        0 <= l <= k,
        same_content(fs, ks, i, l),
        forall|m: int| 0 <= m < l ==> !#[trigger] same_content(fs, ks, i, m),
    decreases k,
{
    if exists|m: int| 0 <= m < k && #[trigger] same_content(fs, ks, i, m) {
        let m = choose|m: int| 0 <= m < k && #[trigger] same_content(fs, ks, i, m);
        first_same(fs, ks, i, m)
    } else {
        k
    }
}

/// Every group has at least two members, and they all have the group's
/// size and the leader's fingerprint; so do the members it lists.
pub proof fn lemma_group_members_agree(fs: Seq<DuplicateFile>, ks: Seq<Option<Vec<u8>>>, l: int, max_files: nat)
    requires
        ks.len() == fs.len(),
        fs.len() <= u64::MAX,
        leaders(fs, ks).contains(l),
    ensures
        members(fs, ks, l).len() >= 2,
        group_of(fs, ks, l, max_files).file_count >= 2,
        max_files >= 2 ==> group_of(fs, ks, l, max_files).files.len() >= 2,
        forall|x: int|
            0 <= x < members(fs, ks, l).len() ==> fs[#[trigger] members(fs, ks, l)[x]].size == fs[l].size
                && ks[members(fs, ks, l)[x]] is Some && ks[members(fs, ks, l)[x]]->Some_0@ == ks[l]->Some_0@,
        forall|x: int|
            0 <= x < group_of(fs, ks, l, max_files).files.len() ==> (#[trigger] group_of(fs, ks, l, max_files).files[x]).size
                == group_of(fs, ks, l, max_files).size,
{
    lemma_leaders_below(fs, ks, fs.len() as int);
    lemma_members_below(fs, ks, l, fs.len() as int);
    let m = members(fs, ks, l);
    let j = choose|j: int| j != l && #[trigger] same_content(fs, ks, l, j);
    assert(m.contains(l) && m.contains(j));
    if m.len() < 2 {
        let a = choose|a: int| 0 <= a < m.len() && m[a] == l;
        let b = choose|b: int| 0 <= b < m.len() && m[b] == j;
        assert(a == b);
    }
    assert forall|x: int| 0 <= x < m.len() implies fs[#[trigger] m[x]].size == fs[l].size && ks[m[x]] is Some
        && ks[m[x]]->Some_0@ == ks[l]->Some_0@ by {
        assert(m.contains(m[x]));
    }
    let g = group_of(fs, ks, l, max_files);
    let rk = ranked(member_recency(fs, m), max_files);
    lemma_ranked_in_range(member_recency(fs, m), max_files);
    lemma_ranked_len(member_recency(fs, m), max_files);
    assert forall|x: int| 0 <= x < g.files.len() implies (#[trigger] g.files[x]).size == g.size by {
        assert(g.files[x] == fs[m[rk[x]]]);
        assert(0 <= rk[x] < m.len());
    }
}

/// Two distinct files with equal size and fingerprint belong to one group:
/// the one headed by the first file with their content.
pub proof fn lemma_equal_content_grouped(fs: Seq<DuplicateFile>, ks: Seq<Option<Vec<u8>>>, i: int, j: int) -> (l: int)
    requires
        ks.len() == fs.len(),
        i != j,
        same_content(fs, ks, i, j),
    ensures
        leaders(fs, ks).contains(l),
        members(fs, ks, l).contains(i),
        members(fs, ks, l).contains(j),
{
    let l = first_same(fs, ks, i, i);
    assert(same_content(fs, ks, i, i));
    lemma_leaders_below(fs, ks, fs.len() as int);
    lemma_members_below(fs, ks, l, fs.len() as int);
    assert(same_content(fs, ks, l, i) && same_content(fs, ks, l, j));
    assert forall|m: int| 0 <= m < l implies !#[trigger] same_content(fs, ks, l, m) by {
        if same_content(fs, ks, l, m) {
            assert(same_content(fs, ks, i, m));
        }
    }
    if l == i {
        assert(j != l && same_content(fs, ks, l, j));
    } else {
        assert(i != l && same_content(fs, ks, l, i));
    }
    assert(is_leader(fs, ks, l));
    l
}

/// Two files with different fingerprints never belong to one group.
pub proof fn lemma_different_content_apart(fs: Seq<DuplicateFile>, ks: Seq<Option<Vec<u8>>>, l: int, i: int, j: int)
    requires
        ks.len() == fs.len(),
        members(fs, ks, l).contains(i),
        members(fs, ks, l).contains(j),
    ensures
        fs[i].size == fs[j].size,
        ks[i] is Some && ks[j] is Some,
        ks[i]->Some_0@ == ks[j]->Some_0@,
{
    lemma_members_below(fs, ks, l, fs.len() as int);
}

/// Every record of at least `min_size` bytes is a duplicate candidate.
pub proof fn lemma_large_records_are_candidates(records: Seq<FileRecord>, min_size: u64, i: int)
    requires
        0 <= i < records.len(),
        records[i].size >= min_size,
    ensures
        candidates_of(records, min_size).contains(dup_file_of(records[i])),
{
    let p = at_least(min_size);
    records.lemma_filter_contains(p, i);
    let f = records.filter(p);
    let k = choose|k: int| 0 <= k < f.len() && f[k] == records[i];
    assert(candidates_of(records, min_size)[k] == dup_file_of(records[i]));
}

/// Stopping early leaves some fingerprints unknown. Whatever a stopped scan
/// groups together, the complete scan groups together too.
pub proof fn lemma_partial_scan_groups_subset(
    fs: Seq<DuplicateFile>,
    partial: Seq<Option<Vec<u8>>>,
    complete: Seq<Option<Vec<u8>>>,
    l: int,
    i: int,
    j: int,
) -> (c: int)
    requires
        partial.len() == fs.len(),
        complete.len() == fs.len(),
        forall|k: int| 0 <= k < fs.len() ==> #[trigger] partial[k] is None || partial[k] == complete[k],
        leaders(fs, partial).contains(l),
        members(fs, partial, l).contains(i),
        members(fs, partial, l).contains(j),
    ensures
        leaders(fs, complete).contains(c),
        members(fs, complete, c).contains(i),
        members(fs, complete, c).contains(j),
{
    lemma_members_below(fs, partial, l, fs.len() as int);
    lemma_leaders_below(fs, partial, fs.len() as int);
    let other = choose|o: int| o != l && #[trigger] same_content(fs, partial, l, o);
    assert(same_content(fs, complete, l, other));
    let c = lemma_equal_content_grouped(fs, complete, l, other);
    lemma_members_below(fs, complete, c, fs.len() as int);
    assert(same_content(fs, complete, l, i));
    assert(same_content(fs, complete, l, j));
    c
}

/// Two distinct files of one size both survive the size buckets.
pub proof fn lemma_shared_size_kept(fs: Seq<DuplicateFile>, i: int, j: int)
    requires
        0 <= i < fs.len(),
        0 <= j < fs.len(),
        i != j,
        fs[i].size == fs[j].size,
    ensures
        size_collisions_of(fs).contains(fs[i]),
        size_collisions_of(fs).contains(fs[j]),
{
    lemma_two_of_size(fs, fs[i].size, i, j);
    let p = size_shared_in(fs);
    fs.lemma_filter_contains(p, i);
    fs.lemma_filter_contains(p, j);
}

proof fn lemma_two_of_size(fs: Seq<DuplicateFile>, size: u64, i: int, j: int)
    requires
        0 <= i < fs.len(),
        0 <= j < fs.len(),
        i != j,
        fs[i].size == size,
        fs[j].size == size,
    ensures
        size_count(fs, size) >= 2,
    decreases fs.len(),
{
    let p = |g: DuplicateFile| g.size == size;
    let rest = fs.drop_last();
    reveal(Seq::filter);
    assert(fs.filter(p) == (if p(fs.last()) { rest.filter(p).push(fs.last()) } else { rest.filter(p) }));
    if i == fs.len() - 1 || j == fs.len() - 1 {
        let k = if i == fs.len() - 1 { j } else { i };
        assert(rest[k] == fs[k]);
        rest.lemma_filter_contains(p, k);
    } else {
        assert(rest[i] == fs[i] && rest[j] == fs[j]);
        lemma_two_of_size(rest, size, i, j);
    }
}

/// Distinct groups share no file.
pub proof fn lemma_groups_disjoint(fs: Seq<DuplicateFile>, ks: Seq<Option<Vec<u8>>>, a: int, b: int, j: int)
    requires
        ks.len() == fs.len(),
        leaders(fs, ks).contains(a),
        leaders(fs, ks).contains(b),
        a != b,
        members(fs, ks, a).contains(j),
    ensures
        !members(fs, ks, b).contains(j),
{
    lemma_leaders_below(fs, ks, fs.len() as int);
    lemma_members_below(fs, ks, a, fs.len() as int);
    lemma_members_below(fs, ks, b, fs.len() as int);
    if members(fs, ks, b).contains(j) {
        assert(same_content(fs, ks, a, b));
        assert(same_content(fs, ks, b, a));
    }
}

} // verus!
