use vstd::prelude::*;

use crate::text::{
    contains_ci, contains_cs, eq_ignore_case, spec_contains_ci, spec_contains_cs, spec_lower_seq,
    str_eq,
};
use vstd::string::StringSliceAdditionalSpecFns;

verus! {

/// What the file system reported of one entry: its path, kind, size in
/// bytes, modification instant in seconds since the epoch where known,
/// and its extension (or the directory marker) where it has one.
pub struct FileEntry {
    pub path: String,
    pub is_dir: bool,
    pub size: u64,
    pub modified: Option<u64>,
    pub file_type: Option<String>,
}

/// What a scan may take in: depth and recursion, an extension filter, a
/// size window, and directory names that are skipped whole.
pub struct ScannerConfig {
    pub recursive: bool,
    pub max_depth: Option<usize>,
    pub extensions: Option<Vec<String>>,
    pub min_size: Option<u64>,
    pub max_size: Option<u64>,
    pub exclude_dirs: Vec<String>,
}

impl Default for ScannerConfig {
    /// Recursive, unbounded, unfiltered, and skipping the usual
    /// version-control and package directories.
    fn default() -> (c: Self)
        ensures
            c.recursive,
            c.max_depth is None,
            c.extensions is None,
            c.min_size is None,
            c.max_size is None,
            c.exclude_dirs@.len() == 2,
            c.exclude_dirs@[0]@ == ".git"@,
            c.exclude_dirs@[1]@ == "node_modules"@,
    {
        let mut exclude_dirs: Vec<String> = Vec::new();
        exclude_dirs.push(".git".to_owned());
        exclude_dirs.push("node_modules".to_owned());
        ScannerConfig {
            recursive: true,
            max_depth: None,
            extensions: None,
            min_size: None,
            max_size: None,
            exclude_dirs,
        }
    }
}

/// Walks a tree under a configuration; the walking itself is the
/// caller's, the decisions are here.
pub struct FileScanner {
    config: ScannerConfig,
}

impl FileScanner {
    /// The configuration the scanner runs under.
    pub closed spec fn spec_config(&self) -> &ScannerConfig {
        &self.config
    }

    /// A scanner under the default configuration.
    pub fn new() -> (r: FileScanner)
        ensures
            r.spec_config().recursive,
            r.spec_config().max_depth is None,
            r.spec_config().extensions is None,
            r.spec_config().min_size is None,
            r.spec_config().max_size is None,
            r.spec_config().exclude_dirs@.len() == 2,
            r.spec_config().exclude_dirs@[0]@ == ".git"@,
            r.spec_config().exclude_dirs@[1]@ == "node_modules"@,
    {
        FileScanner { config: ScannerConfig::default() }
    }

    /// The same scanner under the given configuration.
    pub fn with_config(self, config: ScannerConfig) -> (r: FileScanner)
        ensures
            r.spec_config() == &config,
    {
        FileScanner { config }
    }

    /// A borrow of the configuration, for the caller's walk.
    pub fn config(&self) -> (r: &ScannerConfig)
        ensures
            r == self.spec_config(),
    {
        &self.config
    }
}

/// Two strings are the same under ASCII case folding of their bytes.
pub open spec fn spec_str_eq_ci(a: Seq<u8>, b: Seq<u8>) -> bool {
    spec_lower_seq(a) == spec_lower_seq(b)
}

/// ASCII-case-insensitive string equality.
pub fn str_eq_ci(a: &str, b: &str) -> (r: bool)
    ensures
        r == spec_str_eq_ci(a.spec_bytes(), b.spec_bytes()),
{
    eq_ignore_case(a.as_bytes(), b.as_bytes())
}

/// A size passes the configured window.
pub open spec fn spec_size_within(cfg: &ScannerConfig, size: u64) -> bool {
    &&& (cfg.min_size matches Some(m) ==> size >= m)
    &&& (cfg.max_size matches Some(m) ==> size <= m)
}

/// Whether a size passes the configured window.
pub fn size_within(cfg: &ScannerConfig, size: u64) -> (r: bool)
    ensures
        r == spec_size_within(cfg, size),
{
    let min_ok = match &cfg.min_size {
        Some(m) => size >= *m,
        None => true,
    };
    let max_ok = match &cfg.max_size {
        Some(m) => size <= *m,
        None => true,
    };
    min_ok && max_ok
}

/// An extension passes the filter: no filter accepts everything; a
/// filter accepts exactly an entry that has an extension equal, under
/// ASCII case folding, to one of the listed ones.
pub open spec fn spec_extension_accepted(cfg: &ScannerConfig, ext: &Option<String>) -> bool {
    match cfg.extensions {
        None => true,
        Some(list) => match *ext {
            Some(e) => exists|i: int|
                0 <= i < list@.len() && spec_str_eq_ci(
                    vstd::utf8::encode_utf8((#[trigger] list@[i])@),
                    vstd::utf8::encode_utf8(e@),
                ),
            None => false,
        },
    }
}

/// Whether an extension passes the configured filter.
pub fn extension_accepted(cfg: &ScannerConfig, ext: &Option<String>) -> (r: bool)
    ensures
        r == spec_extension_accepted(cfg, ext),
{
    match &cfg.extensions {
        None => true,
        Some(list) => match ext {
            Some(e) => {
                let n: usize = list.len();
                let mut i: usize = 0;
                while i < n
                    invariant
                        cfg.extensions == Some(*list),
                        *ext == Some(*e),
                        n == list@.len(),
                        0 <= i <= n,
                        forall|k: int|
                            0 <= k < i ==> !spec_str_eq_ci(
                                vstd::utf8::encode_utf8((#[trigger] list@[k])@),
                                vstd::utf8::encode_utf8(e@),
                            ),
                    decreases n - i,
                {
                    if str_eq_ci(list[i].as_str(), e.as_str()) {
                        proof {
                            let sl = cfg.extensions->Some_0;
                            let se = ext->Some_0;
                            assert(sl == *list && se == *e);
                            assert(sl@[i as int] == list@[i as int]);
                            assert(spec_str_eq_ci(
                                vstd::utf8::encode_utf8(sl@[i as int]@),
                                vstd::utf8::encode_utf8(se@),
                            ));
                            assert(spec_extension_accepted(cfg, ext));
                        }
                        return true;
                    }
                    i = i + 1;
                }
                false
            },
            None => false,
        },
    }
}

/// A directory name is on the exclusion list, under ASCII case folding.
pub open spec fn spec_dir_excluded(cfg: &ScannerConfig, name: &str) -> bool {
    exists|i: int|
        0 <= i < cfg.exclude_dirs@.len() && spec_str_eq_ci(
            vstd::utf8::encode_utf8((#[trigger] cfg.exclude_dirs@[i])@),
            name.spec_bytes(),
        )
}

/// Whether a directory of that name is skipped whole.
pub fn dir_excluded(cfg: &ScannerConfig, name: &str) -> (r: bool)
    ensures
        r == spec_dir_excluded(cfg, name),
{
    let n: usize = cfg.exclude_dirs.len();
    let mut i: usize = 0;
    while i < n
        invariant
            n == cfg.exclude_dirs@.len(),
            0 <= i <= n,
            forall|k: int|
                0 <= k < i ==> !spec_str_eq_ci(
                    vstd::utf8::encode_utf8((#[trigger] cfg.exclude_dirs@[k])@),
                    name.spec_bytes(),
                ),
        decreases n - i,
    {
        if str_eq_ci(cfg.exclude_dirs[i].as_str(), name) {
            return true;
        }
        i = i + 1;
    }
    false
}

/// A file passes the scan: its size in the window, its extension past
/// the filter.
pub open spec fn spec_scan_accepts(cfg: &ScannerConfig, ext: &Option<String>, size: u64) -> bool {
    spec_size_within(cfg, size) && spec_extension_accepted(cfg, ext)
}

/// Whether a file of that extension and size belongs in a scan's
/// result.
pub fn scan_accepts(cfg: &ScannerConfig, ext: &Option<String>, size: u64) -> (r: bool)
    ensures
        r == spec_scan_accepts(cfg, ext, size),
{
    size_within(cfg, size) && extension_accepted(cfg, ext)
}

/// A file name matches a search query: the query `.*` matches every
/// name; any other query matches by containment, folding ASCII case
/// when asked to.
pub open spec fn spec_name_matches(qc: Seq<char>, qb: Seq<u8>, fb: Seq<u8>, ci: bool) -> bool {
    if qc == ".*"@ {
        true
    } else if ci {
        spec_contains_ci(fb, qb)
    } else {
        spec_contains_cs(fb, qb)
    }
}

/// Whether a file name matches the query.
pub fn name_matches(query: &str, file_name: &str, ignore_case: bool) -> (r: bool)
    ensures
        r == spec_name_matches(
            query@,
            query.spec_bytes(),
            file_name.spec_bytes(),
            ignore_case,
        ),
{
    if str_eq(query, ".*") {
        true
    } else if ignore_case {
        contains_ci(file_name.as_bytes(), query.as_bytes())
    } else {
        contains_cs(file_name.as_bytes(), query.as_bytes())
    }
}

/// Largest size, in bytes, whose contents a search still reads.
pub const CONTENT_SEARCH_LIMIT: u64 = 10_000_000;

/// A file's contents are searched at all: only when asked for, and
/// only under the size limit.
pub open spec fn spec_content_eligible(search_content: bool, size: u64) -> bool {
    search_content && size < CONTENT_SEARCH_LIMIT
}

/// Whether a file's contents are searched at all.
pub fn content_eligible(search_content: bool, size: u64) -> (r: bool)
    ensures
        r == spec_content_eligible(search_content, size),
{
    search_content && size < CONTENT_SEARCH_LIMIT
}

/// The contents match the query by containment, folding ASCII case
/// when asked to.
pub open spec fn spec_content_matches(qb: Seq<u8>, content: Seq<u8>, ci: bool) -> bool {
    if ci {
        spec_contains_ci(content, qb)
    } else {
        spec_contains_cs(content, qb)
    }
}

/// Whether read contents match the query.
pub fn content_matches(query: &str, content: &[u8], ignore_case: bool) -> (r: bool)
    ensures
        r == spec_content_matches(query.spec_bytes(), content@, ignore_case),
{
    if ignore_case {
        contains_ci(content, query.as_bytes())
    } else {
        contains_cs(content, query.as_bytes())
    }
}

} // verus!
