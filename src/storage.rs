use vstd::prelude::*;
use vstd::utf8::encode_utf8;
use crate::error::ProxyError;
use crate::range::SENTINEL_OPEN;
use crate::text::{chars_of, push_chars, push_char};
use crate::url::{md5_hex, hex_of, md5_of};
use crate::network::NetSource;
use vstd::slice::slice_subrange;

verus! {

/// Where the disk store keeps its files, and how much it reads at a time.
pub struct StorageConfig {
    pub root_path: String,
    pub chunk_size: usize,
}

impl Default for StorageConfig {
    fn default() -> (r: StorageConfig)
        ensures
            r.root_path@ == seq!['.', '/', 'c', 'a', 'c', 'h', 'e'],
            r.chunk_size == 8192,
    {
        let mut root = String::new();
        push_chars(&mut root, vec!['.', '/', 'c', 'a', 'c', 'h', 'e'].as_slice());
        StorageConfig { root_path: root, chunk_size: 8192 }
    }
}

/// Limits of the cache as a whole.
pub struct StorageManagerConfig {
    /// The most bytes that the cache may hold.
    pub max_total_size: u64,
    /// The most bytes that one object may hold.
    pub max_file_size: u64,
    /// How long an unused object stays, in seconds.
    pub expiration_secs: u64,
    /// How often the cleanup runs, in seconds.
    pub cleanup_interval_secs: u64,
    /// The most origin fetches in flight.
    pub max_concurrent_ops: usize,
    /// Objects from this many bytes on may be compressed.
    pub compression_threshold: u64,
    /// The compression level, 1 to 9.
    pub compression_level: u32,
}

impl Default for StorageManagerConfig {
    fn default() -> (r: StorageManagerConfig)
        ensures
            r.max_total_size == 10 * 1024 * 1024 * 1024,
            r.max_file_size == 1024 * 1024 * 1024,
            r.expiration_secs == 24 * 60 * 60,
            r.cleanup_interval_secs == 60 * 60,
            r.max_concurrent_ops == 100,
            r.compression_threshold == 1024 * 1024,
            r.compression_level == 6,
    {
        StorageManagerConfig {
            max_total_size: 10 * 1024 * 1024 * 1024,
            max_file_size: 1024 * 1024 * 1024,
            expiration_secs: 24 * 60 * 60,
            cleanup_interval_secs: 60 * 60,
            max_concurrent_ops: 100,
            compression_threshold: 1024 * 1024,
            compression_level: 6,
        }
    }
}

/// `<root>/<h0h1>/<h2h3>/<hash>` with `hash` the hex MD5 of the key.
pub open spec fn storage_path_of(root: Seq<char>, key: Seq<char>) -> Seq<char> {
    let h = hex_of(md5_of(encode_utf8(key)));
    root + seq!['/'] + h.subrange(0, 2) + seq!['/'] + h.subrange(2, 4) + seq!['/'] + h
}

/// The bytes that a read of `[start, end]` covers in a file of `file_size`
/// bytes: an open end (`SENTINEL_OPEN`) is read as the file's last byte;
/// `None` when `start` or a closed end lies past the file, since the read
/// would come up short.
pub open spec fn read_span_of(start: u64, end: u64, file_size: u64) -> Option<(u64, u64)> {
    if start >= file_size {
        None
    } else if end == SENTINEL_OPEN {
        Some((start, (file_size - 1) as u64))
    } else if end > file_size - 1 || end < start {
        None
    } else {
        Some((start, end))
    }
}

/// A store of objects in sparse files under one directory.
pub struct DiskStorage {
    pub config: StorageConfig,
}

impl DiskStorage {
    pub fn new(config: StorageConfig) -> (r: DiskStorage)
        ensures
            r.config == config,
    {
        DiskStorage { config }
    }

    /// The file that holds the object of a key.
    pub fn get_file_path(&self, key: &str) -> (r: String)
        ensures
            r@ == storage_path_of(self.config.root_path@, key@),
    {
        let h = md5_hex(key);
        let hc = chars_of(h.as_str());
        let mut r = String::new();
        push_chars(&mut r, chars_of(self.config.root_path.as_str()).as_slice());
        push_char(&mut r, '/');
        push_chars(&mut r, slice_subrange(hc.as_slice(), 0, 2));
        push_char(&mut r, '/');
        push_chars(&mut r, slice_subrange(hc.as_slice(), 2, 4));
        push_char(&mut r, '/');
        push_chars(&mut r, hc.as_slice());
        assert(r@ =~= storage_path_of(self.config.root_path@, key@));
        r
    }

    /// The bytes to read for `[start, end]` from a file of `file_size`
    /// bytes; an error when the file is too short to hold them.
    pub fn read_span(&self, start: u64, end: u64, file_size: u64) -> (r: Result<(u64, u64), ProxyError>)
        ensures
            r matches Ok(v) ==> read_span_of(start, end, file_size) == Some(v),
            r is Err <==> read_span_of(start, end, file_size) is None,
            r matches Err(e) ==> e is Cache,
    {
        if start >= file_size {
            return Err(ProxyError::Cache("range starts past the end of the file".to_string()));
        }
        if end == SENTINEL_OPEN {
            Ok((start, file_size - 1))
        } else if end > file_size - 1 || end < start {
            Err(ProxyError::Cache("range ends past the end of the file".to_string()))
        } else {
            Ok((start, end))
        }
    }

    /// How many bytes the next read takes when `remaining` are still due.
    pub fn chunk_len(&self, remaining: u64) -> (r: u64)
        ensures
            r == (if remaining < self.config.chunk_size as u64 { remaining } else {
                self.config.chunk_size as u64 }),
    {
        let c = self.config.chunk_size as u64;
        if remaining < c { remaining } else { c }
    }
}

/// A part of a cached file to read.
pub struct FileSource {
    pub path: String,
    pub range: String,
}

impl FileSource {
    pub fn new(path: &str, range: &str) -> (r: FileSource)
        ensures
            r.path@ == path@,
            r.range@ == range@,
    {
        FileSource { path: path.to_string(), range: range.to_string() }
    }

    /// A source for a path that may have failed to resolve.
    pub fn from_path_buf(path: Result<String, ProxyError>, range: &str) -> (r: Result<FileSource, ProxyError>)
        ensures
            path is Ok <==> r is Ok,
            r matches Ok(f) ==> f.path@ == path.unwrap()@ && f.range@ == range@,
            path matches Err(e) ==> r matches Err(e2) && e2 == e,
    {
        match path {
            Ok(p) => Ok(FileSource { path: p, range: range.to_string() }),
            Err(e) => Err(e),
        }
    }
}

/// Where a block of an object stands.
#[derive(Debug, Clone, Copy, PartialEq, Eq, Structural)]
pub enum BlockState {
    Complete,
    Downloading,
    Pending,
}

/// A block of an object: `length` bytes from `offset`.
#[derive(Debug, Clone, Copy, PartialEq, Eq, Structural)]
pub struct BlockInfo {
    pub offset: u64,
    pub length: u64,
    pub state: BlockState,
    /// When the block was last used, in seconds.
    pub last_access: u64,
    pub priority: u32,
}

/// Where the bytes of a response are read from.
pub enum DataSource {
    File(FileSource),
    Net(NetSource),
}

} // verus!
