//! The configuration this core consumes: the registered library folder
//! paths, the cache folder for derivatives, and the optimization knobs.
//! Reading and writing the configuration file is the embedding shell's
//! concern; the list operations here are what the shell drives.

use vstd::prelude::*;
use vstd::string::*;
use crate::strkit::{str_eq, contains_str};

verus! {

pub struct Config {
    pub library_folders: Vec<String>,
    pub cache_folder: String,
    pub optimization_quality: u8,
    pub max_resolution: u32,
}

/// The default optimization quality.
pub fn default_quality() -> (r: u8)
    ensures
        r == 85,
{
    85
}

/// The default resolution cap, in pixels.
pub fn default_max_resolution() -> (r: u32)
    ensures
        r == 1920,
{
    1920
}

impl Default for Config {
    /// An empty library with the default knobs; the shell supplies the
    /// platform's cache path.
    fn default() -> (r: Config)
        ensures
            r.library_folders@.len() == 0,
            r.cache_folder@.len() == 0,
            r.optimization_quality == 85,
            r.max_resolution == 1920,
    {
        Config {
            library_folders: Vec::new(),
            cache_folder: String::new(),
            optimization_quality: 85,
            max_resolution: 1920,
        }
    }
}

impl Config {
    /// Register a folder in the library list; a path already present (by
    /// its characters) is not added again.
    pub fn add_library_folder(&mut self, folder: String)
        ensures
            old(self).library_folders@.map_values(|s: String| s@).contains(folder@)
                ==> final(self).library_folders@ == old(self).library_folders@,
            !old(self).library_folders@.map_values(|s: String| s@).contains(folder@)
                ==> final(self).library_folders@ == old(self).library_folders@.push(folder),
            final(self).cache_folder == old(self).cache_folder,
            final(self).optimization_quality == old(self).optimization_quality,
            final(self).max_resolution == old(self).max_resolution,
    {
        if !contains_str(&self.library_folders, folder.as_str()) {
            self.library_folders.push(folder);
        }
    }

    /// Drop every occurrence of a folder path from the library list,
    /// keeping the others in order.
    pub fn remove_library_folder(&mut self, folder: &str)
        ensures
            ({
                let flt = old(self).library_folders@.filter(|s: String| s@ != folder@);
                final(self).library_folders@ == flt
            }),
            final(self).cache_folder == old(self).cache_folder,
            final(self).optimization_quality == old(self).optimization_quality,
            final(self).max_resolution == old(self).max_resolution,
    {
        let ghost fs = self.library_folders@;
        let ghost pred = |s: String| s@ != folder@;
        let mut kept: Vec<String> = Vec::new();
        let n = self.library_folders.len();
        assert(fs.take(0) =~= Seq::<String>::empty());
        for i in 0..n
            invariant
                n == fs.len(),
                self.library_folders@ == fs,
                pred == (|s: String| s@ != folder@),
                kept@ == fs.take(i as int).filter(pred),
        {
            proof {
                assert(fs.take(i + 1) =~= fs.take(i as int).push(fs[i as int]));
                fs.take(i as int).lemma_filter_push(fs[i as int], pred);
            }
            if !str_eq(self.library_folders[i].as_str(), folder) {
                kept.push(self.library_folders[i].clone());
            }
        }
        proof {
            assert(fs.take(n as int) =~= fs);
        }
        self.library_folders = kept;
    }

    /// Point the cache at another folder.
    pub fn set_cache_folder(&mut self, folder: String)
        ensures
            final(self).cache_folder == folder,
            final(self).library_folders@ == old(self).library_folders@,
            final(self).optimization_quality == old(self).optimization_quality,
            final(self).max_resolution == old(self).max_resolution,
    {
        self.cache_folder = folder;
    }
}

} // verus!
