use vstd::prelude::*;
use vstd::utf8::encode_utf8;
use crate::record::FileRecord;
use crate::text::{contains_folded, contains_folded_bytes, eq_folded, eq_folded_bytes};

verus! {

/// The largest number of records one search returns.
pub const MAX_SEARCH_LIMIT: u32 = 5000;

/// The number of records a search returns when the caller gives no limit.
pub const DEFAULT_SEARCH_LIMIT: u32 = 200;

/// A name query. An empty `query` or `extension` restricts nothing; the
/// bounds are inclusive.
#[derive(Debug)]
pub struct SearchFilter {
    pub query: String,
    pub extension: String,
    pub min_size: u64,
    pub max_size: u64,
    pub min_created_unix: i64,
    pub max_created_unix: i64,
    pub limit: u32,
}

/// The mathematical content of a `SearchFilter`.
pub ghost struct FilterView {
    pub query: Seq<char>,
    pub extension: Seq<char>,
    pub min_size: u64,
    pub max_size: u64,
    pub min_created_unix: i64,
    pub max_created_unix: i64,
    pub limit: u32,
}

impl View for SearchFilter {
    type V = FilterView;

    open spec fn view(&self) -> FilterView {
        FilterView {
            query: self.query@,
            extension: self.extension@,
            min_size: self.min_size,
            max_size: self.max_size,
            min_created_unix: self.min_created_unix,
            max_created_unix: self.max_created_unix,
            limit: self.limit,
        }
    }
}

/// The UTF-8 encoding of a string.
pub open spec fn utf8(s: String) -> Seq<u8> {
    encode_utf8(s@)
}

/// `limit` brought into `1..=MAX_SEARCH_LIMIT`.
pub open spec fn clamp_limit(limit: u32) -> nat {
    if limit < 1 {
        1
    } else if limit > MAX_SEARCH_LIMIT {
        MAX_SEARCH_LIMIT as nat
    } else {
        limit as nat
    }
}

/// A record matches when its name holds the query (ignoring ASCII case), its
/// extension equals the filter's extension if one is given (ignoring ASCII
/// case), and its size and creation time lie within the bounds.
pub open spec fn record_matches(r: FileRecord, f: FilterView) -> bool {
    &&& contains_folded(utf8(r.name), encode_utf8(f.query))
    &&& (f.extension.len() == 0 || eq_folded(utf8(r.extension), encode_utf8(f.extension)))
    &&& f.min_size <= r.size <= f.max_size
    &&& f.min_created_unix <= r.created_unix <= f.max_created_unix
}

/// The records of `s` that match `f`, in catalog order.
pub open spec fn select(s: Seq<FileRecord>, f: FilterView) -> Seq<FileRecord>
    decreases s.len(),
{
    if s.len() == 0 {
        Seq::empty()
    } else {
        let rest = select(s.drop_last(), f);
        if record_matches(s.last(), f) {
            rest.push(s.last())
        } else {
            rest
        }
    }
}

/// At most the first `n` items of `s`.
pub open spec fn first_n<T>(s: Seq<T>, n: nat) -> Seq<T> {
    if s.len() <= n {
        s
    } else {
        s.take(n as int)
    }
}

/// What a search over `records` returns.
pub open spec fn search_result(records: Seq<FileRecord>, f: FilterView) -> Seq<FileRecord> {
    first_n(select(records, f), clamp_limit(f.limit))
}

/// A filter that restricts nothing, with the given limit.
pub open spec fn unrestricted(f: FilterView) -> bool {
    &&& f.query.len() == 0
    &&& f.extension.len() == 0
    &&& f.min_size == 0
    &&& f.max_size == u64::MAX
    &&& f.min_created_unix == i64::MIN
    &&& f.max_created_unix == i64::MAX
}

/// What is selected from a prefix of the records is a prefix of what is
/// selected from all of them.
pub proof fn lemma_select_prefix(s: Seq<FileRecord>, f: FilterView, i: int)
    requires
        0 <= i <= s.len(),
    ensures
        select(s.take(i), f) =~= select(s, f).take(select(s.take(i), f).len() as int),
        select(s.take(i), f).len() <= select(s, f).len(),
    decreases s.len(),
{
    if i == s.len() {
        assert(s.take(i) =~= s);
    } else {
        assert(s.drop_last().take(i) =~= s.take(i));
        lemma_select_prefix(s.drop_last(), f, i);
    }
}

/// Inverted size bounds select nothing.
pub proof fn lemma_inverted_size_bounds_select_nothing(s: Seq<FileRecord>, f: FilterView)
    requires
        f.min_size > f.max_size,
    ensures
        select(s, f) == Seq::<FileRecord>::empty(),
        search_result(s, f) == Seq::<FileRecord>::empty(),
    decreases s.len(),
{
    if s.len() > 0 {
        lemma_inverted_size_bounds_select_nothing(s.drop_last(), f);
    }
}

/// A search never returns more records than its clamped limit, and so never
/// more than `MAX_SEARCH_LIMIT`.
pub proof fn lemma_search_len_bounded(s: Seq<FileRecord>, f: FilterView)
    ensures
        search_result(s, f).len() <= clamp_limit(f.limit),
        search_result(s, f).len() <= MAX_SEARCH_LIMIT,
{
}

/// An unrestricted filter selects every record.
pub proof fn lemma_unrestricted_selects_all(s: Seq<FileRecord>, f: FilterView)
    requires
        unrestricted(f),
    ensures
        select(s, f) == s,
    decreases s.len(),
{
    if s.len() > 0 {
        lemma_unrestricted_selects_all(s.drop_last(), f);
        let r = s.last();
        assert(encode_utf8(f.query) =~= Seq::<u8>::empty());
        assert(crate::text::occurs_folded_at(utf8(r.name), encode_utf8(f.query), 0));
        assert(s.drop_last().push(r) =~= s);
    }
}

/// The limit clamped into `1..=MAX_SEARCH_LIMIT`.
pub fn clamp_search_limit(limit: u32) -> (r: u32)
    ensures
        r as nat == clamp_limit(limit),
{
    if limit < 1 {
        1
    } else if limit > MAX_SEARCH_LIMIT {
        MAX_SEARCH_LIMIT
    } else {
        limit
    }
}

/// The UTF-8 bytes of a string.
pub fn utf8_bytes(s: &String) -> (r: Vec<u8>)
    ensures
        r@ == utf8(*s),
{
    s.as_str().as_bytes_vec()
}

fn matches_with(r: &FileRecord, f: &SearchFilter, query: &Vec<u8>, ext: &Vec<u8>) -> (b: bool)
    requires
        query@ == utf8(f.query),
        ext@ == utf8(f.extension),
    ensures
        b == record_matches(*r, f@),
{
    if r.size < f.min_size || r.size > f.max_size {
        return false;
    }
    if r.created_unix < f.min_created_unix || r.created_unix > f.max_created_unix {
        return false;
    }
    if f.extension.unicode_len() != 0 {
        let e = utf8_bytes(&r.extension);
        if !eq_folded_bytes(&e, ext) {
            return false;
        }
    }
    let name = utf8_bytes(&r.name);
    contains_folded_bytes(&name, query)
}

/// Whether one record matches the filter.
pub fn matches_filter(r: &FileRecord, f: &SearchFilter) -> (b: bool)
    ensures
        b == record_matches(*r, f@),
{
    let query = utf8_bytes(&f.query);
    let ext = utf8_bytes(&f.extension);
    matches_with(r, f, &query, &ext)
}

/// The first `clamp_limit(f.limit)` records that match `f`, in catalog order.
pub fn search(records: &Vec<FileRecord>, f: &SearchFilter) -> (r: Vec<FileRecord>)
    ensures
        r@ == search_result(records@, f@),
{
    let lim = clamp_search_limit(f.limit) as usize;
    let query = utf8_bytes(&f.query);
    let ext = utf8_bytes(&f.extension);
    let mut out: Vec<FileRecord> = Vec::new();
    let n = records.len();
    let mut i: usize = 0;
    while i < n && out.len() < lim
        invariant
            n == records@.len(),
            i <= n,
            lim == clamp_limit(f.limit),
            query@ == utf8(f.query),
            ext@ == utf8(f.extension),
            out@ == select(records@.take(i as int), f@),
            out@.len() <= lim,
        decreases n - i,
    {
        assert(records@.take(i + 1).drop_last() =~= records@.take(i as int));
        if matches_with(&records[i], f, &query, &ext) {
            out.push(records[i].copied());
        }
        i = i + 1;
    }
    proof {
        if i == n {
            assert(records@.take(n as int) =~= records@);
        } else {
            lemma_select_prefix(records@, f@, i as int);
        }
    }
    out
}

} // verus!
