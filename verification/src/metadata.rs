//! Per-file metadata records and their sources.
//!
//! A record collects what is known about one file; each source names the
//! host a copy came from, and a host has at most one source entry: saving
//! a source replaces any earlier entry for its host.

use vstd::prelude::*;

verus! {

/// Where a copy of the file came from and what was known about it there.
#[derive(Debug)]
pub struct FileSource {
    pub host_name: String,
    pub full_file_path: Option<String>,
    pub root_folder: Option<String>,
    pub relative_file_path: Option<String>,
    pub file_name: Option<String>,
    pub file_extension: Option<String>,
    pub received_at: Option<u64>,
    pub created_at: Option<u64>,
    pub modified_at: Option<u64>,
    pub accessed_at: Option<u64>,
    pub last_updated_at: Option<u64>,
    pub readonly: Option<bool>,
}

/// The view of an optional string.
pub open spec fn opt_str_view(o: Option<String>) -> Option<Seq<char>> {
    match o {
        Option::Some(s) => Option::Some(s@),
        Option::None => Option::None,
    }
}

/// Two sources carry the same information.
pub open spec fn source_like(a: FileSource, b: FileSource) -> bool {
    &&& a.host_name@ == b.host_name@
    &&& opt_str_view(a.full_file_path) == opt_str_view(b.full_file_path)
    &&& opt_str_view(a.root_folder) == opt_str_view(b.root_folder)
    &&& opt_str_view(a.relative_file_path) == opt_str_view(b.relative_file_path)
    &&& opt_str_view(a.file_name) == opt_str_view(b.file_name)
    &&& opt_str_view(a.file_extension) == opt_str_view(b.file_extension)
    &&& a.received_at == b.received_at
    &&& a.created_at == b.created_at
    &&& a.modified_at == b.modified_at
    &&& a.accessed_at == b.accessed_at
    &&& a.last_updated_at == b.last_updated_at
    &&& a.readonly == b.readonly
}

/// Clones an optional string, keeping its view.
fn clone_opt_str(o: &Option<String>) -> (r: Option<String>)
    ensures
        opt_str_view(r) == opt_str_view(*o),
{
    match o {
        Some(s) => Some(s.clone()),
        None => None,
    }
}

impl Clone for FileSource {
    fn clone(&self) -> (r: FileSource)
        ensures
            source_like(r, *self),
    {
        FileSource {
            host_name: self.host_name.clone(),
            full_file_path: clone_opt_str(&self.full_file_path),
            root_folder: clone_opt_str(&self.root_folder),
            relative_file_path: clone_opt_str(&self.relative_file_path),
            file_name: clone_opt_str(&self.file_name),
            file_extension: clone_opt_str(&self.file_extension),
            received_at: self.received_at,
            created_at: self.created_at,
            modified_at: self.modified_at,
            accessed_at: self.accessed_at,
            last_updated_at: self.last_updated_at,
            readonly: self.readonly,
        }
    }
}

/// What is known about one file: its digest, size, type, tags and the
/// sources it was seen at.
#[derive(Debug)]
pub struct FileMetadata {
    pub file_hash: Option<String>,
    pub received_at: Option<u64>,
    pub mime_type: Option<String>,
    pub size: Option<u64>,
    pub tags: Vec<String>,
    pub sources: Vec<FileSource>,
}

/// A source for this host is recorded.
pub open spec fn has_source(sources: Seq<FileSource>, host: Seq<char>) -> bool {
    exists|i: int| 0 <= i < sources.len() && (#[trigger] sources[i]).host_name@ == host
}

impl FileMetadata {
    /// An empty record: nothing known yet.
    pub fn new() -> (r: FileMetadata)
        ensures
            r.file_hash is None,
            r.received_at is None,
            r.mime_type is None,
            r.size is None,
            r.tags@ =~= Seq::<String>::empty(),
            r.sources@ =~= Seq::<FileSource>::empty(),
    {
        FileMetadata {
            file_hash: None,
            received_at: None,
            mime_type: None,
            size: None,
            tags: Vec::new(),
            sources: Vec::new(),
        }
    }

    /// The first recorded source for this host, when one exists.
    #[verifier::loop_isolation(false)]
    pub fn find_file_source(&mut self, host_name: &str) -> (r: Option<FileSource>)
        ensures
            *final(self) == *old(self),
            r is Some <==> has_source(old(self).sources@, host_name@),
            r matches Some(src) ==> exists|i: int|
                0 <= i < old(self).sources@.len() && (#[trigger] old(
                    self,
                ).sources@[i]).host_name@ == host_name@ && source_like(src, old(self).sources@[i])
                    && forall|j: int| 0 <= j < i ==> old(self).sources@[j].host_name@ != host_name@,
    {
        let mut i: usize = 0;
        while i < self.sources.len()
            invariant
                i <= self.sources@.len(),
                forall|k: int| 0 <= k < i ==> (#[trigger] self.sources@[k]).host_name@ != host_name@,
            decreases self.sources@.len() - i,
        {
            if self.sources[i].host_name == host_name.to_owned() {
                return Some(self.sources[i].clone());
            }
            i += 1;
        }
        None
    }

    /// Records a source, replacing any earlier entry for the same host.
    #[verifier::loop_isolation(false)]
    pub fn save_file_source(&mut self, new_file_source: FileSource)
        ensures
            final(self).sources@ == old(self).sources@.filter(
                |s: FileSource| s.host_name@ != new_file_source.host_name@,
            ).push(new_file_source),
            final(self).file_hash == old(self).file_hash,
            final(self).received_at == old(self).received_at,
            final(self).mime_type == old(self).mime_type,
            final(self).size == old(self).size,
            final(self).tags == old(self).tags,
    {
        broadcast use vstd::prelude::Seq::lemma_filter_push;

        let ghost pred = |s: FileSource| s.host_name@ != new_file_source.host_name@;
        let ghost pre = *self;
        let mut entries: Vec<FileSource> = Vec::new();
        core::mem::swap(&mut entries, &mut self.sources);
        let ghost all = entries@;
        let ghost n = all.len() as int;
        proof {
            assert(all.subrange(0, 0).filter(pred) =~= Seq::<FileSource>::empty());
        }
        while entries.len() > 0
            invariant
                entries@.len() <= n,
                entries@ == all.skip(n - entries@.len()),
                self.sources@ == all.subrange(0, n - entries@.len()).filter(pred),
                self.file_hash == pre.file_hash,
                self.received_at == pre.received_at,
                self.mime_type == pre.mime_type,
                self.size == pre.size,
                self.tags == pre.tags,
            decreases entries@.len(),
        {
            let ghost k = n - entries@.len();
            let e = entries.remove(0);
            proof {
                assert(all.skip(k)[0] == all[k]);
                assert(entries@ =~= all.skip(k + 1));
                assert(all.subrange(0, k + 1) =~= all.subrange(0, k).push(e));
            }
            if !(e.host_name == new_file_source.host_name) {
                self.sources.push(e);
            }
        }
        proof {
            assert(all.subrange(0, n) =~= all);
        }
        self.sources.push(new_file_source);
    }
}

} // verus!
