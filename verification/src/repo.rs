//! Import pipeline decisions.
//!
//! A single-file import classifies the file, hashes it, records its
//! metadata and places the bytes into the store. The decisions along that
//! pipeline — is the target there, is its type supported, which extension
//! to keep, where the bytes go, which failures abort a directory import —
//! are made here on plain observations; the filesystem, the classification
//! oracle and the datastore supply those observations.

use vstd::prelude::*;

use crate::error::{Error, ErrorKind};
use crate::fstore::{shard_dir_name, store_file_name};
use crate::strutil::str_eq;

verus! {

/// The supported MIME types, each with its canonical default extension.
/// Built once at startup and passed by reference into imports.
pub struct SupportedTypes {
    entries: Vec<(String, String)>,
}

/// The extension recorded for a MIME type, if the type is supported.
pub open spec fn find_ext(entries: Seq<(Seq<char>, Seq<char>)>, mime: Seq<char>) -> Option<
    Seq<char>,
>
    decreases entries.len(),
{
    if entries.len() == 0 {
        None
    } else if entries[0].0 == mime {
        Some(entries[0].1)
    } else {
        find_ext(entries.skip(1), mime)
    }
}

impl SupportedTypes {
    /// The mapping as pairs of MIME type and default extension.
    pub closed spec fn model(&self) -> Seq<(Seq<char>, Seq<char>)> {
        self.entries@.map_values(|e: (String, String)| (e.0@, e.1@))
    }

    /// The default extension for a MIME type, or nothing when the type is
    /// not supported.
    pub fn lookup(&self, mime: &str) -> (r: Option<String>)
        ensures
            match r {
                Some(ext) => find_ext(self.model(), mime@) == Some(ext@),
                None => find_ext(self.model(), mime@) is None,
            },
    {
        proof {
            assert(self.model().skip(0) =~= self.model());
        }
        let mut i: usize = 0;
        while i < self.entries.len()
            invariant
                i <= self.entries.len(),
                find_ext(self.model(), mime@) == find_ext(self.model().skip(i as int), mime@),
            decreases self.entries.len() - i,
        {
            let ghost tail = self.model().skip(i as int);
            proof {
                assert(tail[0] == self.model()[i as int]);
                assert(tail.skip(1) =~= self.model().skip(i as int + 1));
            }
            let entry = &self.entries[i];
            proof {
                assert((entry.0@, entry.1@) == self.model()[i as int]);
            }
            if str_eq(entry.0.as_str(), mime) {
                return Some(entry.1.clone());
            }
            i = i + 1;
        }
        None
    }
}

/// Builds the supported-type table: MP4 video, stored with extension `mp4`.
pub fn supported_mimetypes() -> (r: SupportedTypes)
    ensures
        r.model() == seq![("video/mp4"@, "mp4"@)],
{
    let mut entries: Vec<(String, String)> = Vec::new();
    entries.push((String::from_str("video/mp4"), String::from_str("mp4")));
    let r = SupportedTypes { entries };
    proof {
        assert(r.model() =~= seq![("video/mp4"@, "mp4"@)]);
    }
    r
}

/// Where an import target leads.
#[derive(Debug)]
pub enum ImportTarget {
    /// A directory, imported recursively.
    Directory,
    /// A single regular file.
    File,
}

/// Decides what to do with an import target from what the filesystem
/// reports: a missing target is refused, a directory is recursed into,
/// anything else is imported as one file.
pub fn import_target(path: &str, path_exists: bool, is_dir: bool) -> (r: Result<
    ImportTarget,
    Error,
>)
    ensures
        match r {
            Ok(t) => path_exists && (t is Directory <==> is_dir),
            Err(e) => !path_exists && e.kind == ErrorKind::FileNotFound && e.msg@
                == "The file to import cannot be found: "@ + path@ + "."@,
        },
{
    if !path_exists {
        let mut msg = String::from_str("The file to import cannot be found: ");
        msg.append(path);
        msg.append(".");
        return Err(Error { msg, kind: ErrorKind::FileNotFound });
    }
    if is_dir {
        Ok(ImportTarget::Directory)
    } else {
        Ok(ImportTarget::File)
    }
}

/// What a single-file import will do once the file has been observed: the
/// metadata to record and the placement of the bytes within the store.
#[derive(Debug)]
pub struct ImportPlan {
    /// The placeholder title: the full source path.
    pub title: String,
    /// The extension kept in the index and on the stored file.
    pub ext: String,
    /// The content hash.
    pub hash: String,
    /// The shard directory under the store, named by the hash's first two
    /// characters.
    pub shard_dir: String,
    /// The file name within the shard: the rest of the hash, a dot, and
    /// the extension.
    pub file_name: String,
}

/// Decides a single-file import from what has been observed: the MIME type
/// the classification oracle reported, the content hash of the bytes, the
/// source path (kept as the placeholder title) and the filename's
/// extension, if it has one. An unsupported type is refused; otherwise the
/// filename's extension wins over the type's canonical one.
pub fn plan_import(
    supported: &SupportedTypes,
    mime: &str,
    source_path: &str,
    filename_ext: Option<&str>,
    hash: &str,
) -> (r: Result<ImportPlan, Error>)
    requires
        hash@.len() >= 2,
    ensures
        match r {
            Ok(plan) => {
                &&& find_ext(supported.model(), mime@) is Some
                &&& plan.title@ == source_path@
                &&& plan.hash@ == hash@
                &&& plan.ext@ == (match filename_ext {
                    Some(e) => e@,
                    None => find_ext(supported.model(), mime@)->0,
                })
                &&& plan.shard_dir@ == hash@.subrange(0, 2)
                &&& plan.file_name@ == hash@.skip(2) + "."@ + plan.ext@
            },
            Err(e) => find_ext(supported.model(), mime@) is None && e.kind
                == ErrorKind::Unsupported && e.msg@ == "The file to import has an supported type: "@
                + source_path@ + "."@,
        },
{
    let default_ext = match supported.lookup(mime) {
        Some(ext) => ext,
        None => {
            let mut msg = String::from_str("The file to import has an supported type: ");
            msg.append(source_path);
            msg.append(".");
            return Err(Error { msg, kind: ErrorKind::Unsupported });
        },
    };
    let ext = match filename_ext {
        Some(e) => String::from_str(e),
        None => default_ext,
    };
    let shard_dir = shard_dir_name(hash);
    let file_name = store_file_name(hash, ext.as_str());
    Ok(
        ImportPlan {
            title: String::from_str(source_path),
            ext,
            hash: String::from_str(hash),
            shard_dir,
            file_name,
        },
    )
}

/// The directory-import suppression policy: an IO failure signals a
/// systemic problem and aborts the whole directory import; every other
/// failure (unsupported type, duplicate, classification trouble) is
/// reported and skipped.
pub fn is_fatal_import_error(kind: &ErrorKind) -> (r: bool)
    ensures
        r == (*kind == ErrorKind::IO),
{
    *kind == ErrorKind::IO
}

/// Checks the on-disk layout of an existing repository from what the
/// filesystem reports: the store and thumbnail folders must both be
/// directories.
pub fn validate_repo_layout(
    store_path: &str,
    store_is_dir: bool,
    thumbnail_path: &str,
    thumbnail_is_dir: bool,
) -> (r: Result<(), Error>)
    ensures
        match r {
            Ok(()) => store_is_dir && thumbnail_is_dir,
            Err(e) => {
                &&& !(store_is_dir && thumbnail_is_dir)
                &&& !store_is_dir ==> e.kind == ErrorKind::StoreFolder && e.msg@
                    == "File store does not exist or is not a directory at "@ + store_path@ + "."@
                &&& store_is_dir ==> e.kind == ErrorKind::ThumbnailFolder && e.msg@
                    == "Thumbnail store does not exist or is not a directory at "@
                    + thumbnail_path@ + "."@
            },
        },
{
    if !store_is_dir {
        let mut msg = String::from_str("File store does not exist or is not a directory at ");
        msg.append(store_path);
        msg.append(".");
        return Err(Error { msg, kind: ErrorKind::StoreFolder });
    }
    if !thumbnail_is_dir {
        let mut msg = String::from_str(
            "Thumbnail store does not exist or is not a directory at ",
        );
        msg.append(thumbnail_path);
        msg.append(".");
        return Err(Error { msg, kind: ErrorKind::ThumbnailFolder });
    }
    Ok(())
}

} // verus!
