use vstd::prelude::*;
use crate::text::{chars_of, push_chars, push_char};
use crate::url::{UrlUtils, cache_key_of};
use vstd::slice::slice_subrange;

verus! {

pub open spec fn data_ext() -> Seq<char> {
    seq!['.', 'd', 'a', 't', 'a']
}

pub open spec fn state_ext() -> Seq<char> {
    seq!['.', 'j', 's', 'o', 'n']
}

/// `<dir>/<k0k1>/<k2k3>/<key><ext>`: two levels of hex buckets under the
/// cache directory.
pub open spec fn object_path_of(dir: Seq<char>, key: Seq<char>, ext: Seq<char>) -> Seq<char> {
    dir + seq!['/'] + key.subrange(0, 2) + seq!['/'] + key.subrange(2, 4) + seq!['/'] + key + ext
}

/// Where the cache keeps its files.
pub struct Config {
    pub cache_dir: String,
}

impl Config {
    pub fn new(cache_dir: String) -> (r: Config)
        ensures
            r.cache_dir@ == cache_dir@,
    {
        Config { cache_dir }
    }

    /// The path of a file of the object with the given key.
    pub fn object_path(&self, key: &str, ext: &[char]) -> (r: String)
        requires
            key@.len() >= 4,
        ensures
            r@ == object_path_of(self.cache_dir@, key@, ext@),
    {
        let k = chars_of(key);
        let mut r = String::new();
        push_chars(&mut r, chars_of(self.cache_dir.as_str()).as_slice());
        push_char(&mut r, '/');
        push_chars(&mut r, slice_subrange(k.as_slice(), 0, 2));
        push_char(&mut r, '/');
        push_chars(&mut r, slice_subrange(k.as_slice(), 2, 4));
        push_char(&mut r, '/');
        push_chars(&mut r, k.as_slice());
        push_chars(&mut r, ext);
        assert(r@ =~= object_path_of(self.cache_dir@, key@, ext@));
        r
    }

    /// The sparse data file of the object with the given key.
    pub fn data_path_for_key(&self, key: &str) -> (r: String)
        requires
            key@.len() >= 4,
        ensures
            r@ == object_path_of(self.cache_dir@, key@, data_ext()),
    {
        let ext = vec!['.', 'd', 'a', 't', 'a'];
        assert(ext@ =~= data_ext());
        self.object_path(key, ext.as_slice())
    }

    /// The JSON state file of the object with the given key.
    pub fn state_path_for_key(&self, key: &str) -> (r: String)
        requires
            key@.len() >= 4,
        ensures
            r@ == object_path_of(self.cache_dir@, key@, state_ext()),
    {
        let ext = vec!['.', 'j', 's', 'o', 'n'];
        assert(ext@ =~= state_ext());
        self.object_path(key, ext.as_slice())
    }

    /// The data file that caches the object behind a URL.
    pub fn get_cache_file(&self, url: &str) -> (r: String)
        ensures
            r@ == object_path_of(self.cache_dir@, cache_key_of(url@), data_ext()),
    {
        let key = UrlUtils::cache_key(url);
        self.data_path_for_key(key.as_str())
    }

    /// The state file that records what is cached of the object behind a URL.
    pub fn get_cache_state(&self, url: &str) -> (r: String)
        ensures
            r@ == object_path_of(self.cache_dir@, cache_key_of(url@), state_ext()),
    {
        let key = UrlUtils::cache_key(url);
        self.state_path_for_key(key.as_str())
    }
}

} // verus!
