//! One extraction, step by step.
//!
//! A `Session` owns the archive handle for the duration of one extraction.
//! Opening it parses the archive, reads every entry's metadata and decides
//! whether toplevel stripping is active; each `step` then plans one entry
//! and, for a file, decompresses its content.  The caller walks the steps
//! in order and materializes each planned output; a skipped entry is
//! `Ok(None)`, never an error.

use crate::archive::archive_bytes;
use crate::archive::archive_entries;
use crate::archive::entry_content;
use crate::archive::entry_count;
use crate::archive::entry_meta;
use crate::archive::open_archive;
use crate::archive::zip_content_ok;
use crate::archive::zip_entries_of;
use crate::archive::zip_meta_ok;
use crate::archive::zip_parses;
use crate::archive::Archive;
use crate::archive::EntryMeta;
use crate::archive::EntrySpec;
use crate::plan::do_strip_spec;
use crate::plan::entry_names;
use crate::plan::has_toplevel;
use crate::plan::plan_entry;
use crate::plan::plan_entry_spec;
use crate::plan::EntryPlan;
use crate::ZipExtractError;
use vstd::prelude::*;

verus! {

/// One planned output together with the bytes to write into it.  The
/// content of a directory entry is empty.
pub struct PlannedEntry {
    pub plan: EntryPlan,
    pub content: Vec<u8>,
}

/// One extraction in progress: the archive handle, the metadata of every
/// entry, and whether toplevel stripping is active.
pub struct Session {
    archive: Archive,
    metas: Vec<EntryMeta>,
    do_strip: bool,
}

impl Session {
    /// The entries of the archive this session extracts.
    pub closed spec fn entries(self) -> Seq<EntrySpec> {
        archive_entries(self.archive)
    }

    /// The bytes of the archive this session extracts.
    pub closed spec fn source(self) -> Seq<u8> {
        archive_bytes(self.archive)
    }

    /// Whether this session strips the shared toplevel component.
    pub closed spec fn strip_active(self) -> bool {
        self.do_strip
    }

    /// The session's metadata matches the archive's entries, one to one.
    pub closed spec fn wf(self) -> bool {
        &&& self.metas@.len() == self.entries().len()
        &&& forall|i: int|
            0 <= i < self.metas@.len() ==> (#[trigger] self.metas@[i]).describes(self.entries()[i])
    }

    /// Opens an extraction session over the bytes of an archive.  It reads
    /// every entry's metadata up front, so it succeeds exactly when the
    /// bytes parse as a zip archive and every entry's metadata is
    /// readable; a bad entry header thus fails the call before anything is
    /// materialized.  It fails with an archive-format error, and toplevel
    /// stripping becomes active only when requested and legal for this
    /// archive.
    pub fn open(bytes: Vec<u8>, strip_toplevel: bool) -> (r: Result<Session, ZipExtractError>)
        ensures
            r is Ok <==> zip_parses(bytes@) && (forall|i: int|
                0 <= i < zip_entries_of(bytes@).len() ==> zip_meta_ok(bytes@, i)),
            r matches Err(e) ==> e is Zip,
            r matches Ok(s) ==> {
                &&& s.wf()
                &&& s.entries() == zip_entries_of(bytes@)
                &&& s.source() == bytes@
                &&& s.strip_active() == do_strip_spec(zip_entries_of(bytes@), strip_toplevel)
            },
    {
        let ghost b = bytes@;
        let mut archive = match open_archive(bytes) {
            Ok(a) => a,
            Err(e) => {
                return Err(ZipExtractError::Zip(e));
            },
        };
        let ghost es = archive_entries(archive);
        let n = entry_count(&archive);
        let mut metas: Vec<EntryMeta> = Vec::new();
        let mut i: usize = 0;
        while i < n
            invariant
                b == bytes@,
                i <= n,
                n == es.len(),
                es == zip_entries_of(b),
                archive_entries(archive) == es,
                archive_bytes(archive) == b,
                metas@.len() == i,
                forall|j: int| 0 <= j < i ==> (#[trigger] metas@[j]).describes(es[j]),
                forall|j: int| 0 <= j < i ==> zip_meta_ok(b, j),
            decreases n - i,
        {
            match entry_meta(&mut archive, i) {
                Ok(m) => {
                    metas.push(m);
                },
                Err(e) => {
                    assert(!zip_meta_ok(b, i as int));
                    return Err(ZipExtractError::Zip(e));
                },
            }
            i = i + 1;
        }
        let strips = strip_toplevel && has_toplevel(&metas);
        proof {
            assert(metas@.map_values(|m: EntryMeta| m.name_raw@) =~~= entry_names(es));
        }
        Ok(Session { archive, metas, do_strip: strips })
    }

    /// The number of entries of the archive.
    pub fn count(&self) -> (n: usize)
        requires
            self.wf(),
        ensures
            n == self.entries().len(),
    {
        self.metas.len()
    }

    /// Whether this session strips the shared toplevel component.
    pub fn strips(&self) -> (b: bool)
        ensures
            b == self.strip_active(),
    {
        self.do_strip
    }

    /// Plans entry `i` and, for a file, decompresses its content.
    /// `Ok(None)` skips the entry; the call fails exactly when the entry
    /// is a planned file whose content cannot be read, and that failure
    /// aborts the extraction.
    pub fn step(&mut self, i: usize) -> (r: Result<Option<PlannedEntry>, ZipExtractError>)
        requires
            old(self).wf(),
            i < old(self).entries().len(),
        ensures
            final(self).wf(),
            final(self).entries() == old(self).entries(),
            final(self).source() == old(self).source(),
            final(self).strip_active() == old(self).strip_active(),
            ({
                let plan = plan_entry_spec(
                    old(self).entries()[i as int].name_raw,
                    old(self).entries()[i as int].mode,
                    old(self).strip_active(),
                );
                &&& (r matches Ok(Some(p)) ==> {
                    &&& Some(p.plan@) == plan
                    &&& (p.plan@.is_dir ==> p.content@ == Seq::<u8>::empty())
                    &&& (!p.plan@.is_dir ==> p.content@ == old(self).entries()[i as int].content)
                })
                &&& (r is Ok && r.unwrap() is None <==> plan is None)
                &&& (r is Err <==> (plan matches Some(q) && !q.is_dir && !zip_content_ok(
                    old(self).source(),
                    i as int,
                )))
                &&& (r matches Err(e) ==> e is Zip || e is Io)
            }),
    {
        let plan = plan_entry(&self.metas[i], self.do_strip);
        match plan {
            None => Ok(None),
            Some(p) => {
                if p.is_dir {
                    Ok(Some(PlannedEntry { plan: p, content: Vec::new() }))
                } else {
                    match entry_content(&mut self.archive, i) {
                        Ok(c) => Ok(Some(PlannedEntry { plan: p, content: c })),
                        Err(e) => Err(e),
                    }
                }
            },
        }
    }
}

} // verus!
