//! Volume indexing, name search and duplicate detection over an in-memory
//! catalog of file records.
mod catalog;
mod drives;
mod dupes;
mod index;
mod preview;
mod record;
mod scan;
mod search;
mod text;

pub use catalog::{resolve_catalog, RawEntry};
pub use drives::{describe_drive, drive_type, list_drives, DriveInfo, DriveProbe, DriveType};
pub use dupes::{
    duplicate_candidates, duplicate_params, group_duplicates, partial_collisions, rank_by_total,
    same_bytes, size_collisions, DuplicateGroup, DuplicateParams, DEFAULT_MAX_FILES_PER_GROUP,
    DEFAULT_MAX_GROUPS, DEFAULT_MIN_DUPLICATE_SIZE, MAX_FILES_PER_GROUP, MAX_GROUPS_LIMIT,
    MIN_FILES_PER_GROUP,
};
pub use index::{contains_path, parse_drive, IndexError, IndexStatus, Indexer, IndexingState};
pub use preview::{check_preview, max_preview_bytes, mime_type, preview_data_url, preview_kind, PreviewError, PreviewKind};
pub use record::{file_extension, join, make_record, DuplicateFile, FileRecord};
pub use scan::{DuplicateScan, DuplicateScanStatus, ScanAction, ScanError, ScanPhase};
pub use search::{
    clamp_search_limit, matches_filter, search, utf8_bytes, SearchFilter, DEFAULT_SEARCH_LIMIT,
    MAX_SEARCH_LIMIT,
};
pub use text::{contains_folded_bytes, eq_folded_bytes, fold};
