//! Per-entry extraction planning.
//!
//! For each entry the planner decodes the stored name, sanitizes it, strips
//! the shared toplevel component when stripping is active, and either
//! rejects the entry (it is skipped, never an error) or produces the
//! relative path, kind and permission bits of the output to materialize.
//! The toplevel detector decides whether every entry of the archive lies
//! under one shared first path component.

use crate::archive::EntryMeta;
use crate::archive::EntrySpec;
use crate::decode::decode_entry_name;
use crate::decode::decoded_name;
use crate::paths::anchored_first;
use crate::paths::bytes_eq;
use crate::paths::check_components;
use crate::paths::components_safe;
use crate::paths::sanitize_name;
use crate::paths::sanitize_name_spec;
use crate::paths::seg_is_anchored;
use crate::paths::SLASH;
use vstd::prelude::*;

verus! {

/// The sanitized components of an entry's stored name, or `None` when the
/// entry is skipped because its name does not decode or is unsafe.
pub open spec fn entry_components(raw: Seq<u8>) -> Option<Seq<Seq<u8>>> {
    match decoded_name(raw) {
        None => None,
        Some(d) => sanitize_name_spec(d),
    }
}

/// The first path component of an entry's stored name, or `None` when the
/// entry has no sanitized components.
pub open spec fn first_component(raw: Seq<u8>) -> Option<Seq<u8>> {
    match entry_components(raw) {
        None => None,
        Some(c) => if c.len() == 0 {
            None
        } else {
            Some(c[0])
        },
    }
}

/// Whether every entry of the archive lies under one shared first path
/// component.  An archive with fewer than two entries never qualifies.
pub open spec fn has_toplevel_spec(names: Seq<Seq<u8>>) -> bool {
    &&& names.len() >= 2
    &&& first_component(names[0]) is Some
    &&& forall|i: int|
        0 <= i < names.len() ==> #[trigger] first_component(names[i]) == first_component(names[0])
}

/// The stored names of a sequence of entries.
pub open spec fn entry_names(es: Seq<EntrySpec>) -> Seq<Seq<u8>> {
    es.map_values(|e: EntrySpec| e.name_raw)
}

/// Whether a stored name denotes a directory: by zip convention, the raw
/// name ends with the path separator.
pub open spec fn is_dir_name(raw: Seq<u8>) -> bool {
    raw.len() > 0 && raw.last() == SLASH
}

/// What the planner decides for one entry: the sanitized relative path of
/// the output, whether it is a directory, and the permission bits to apply.
pub ghost struct PlanSpec {
    pub components: Seq<Seq<u8>>,
    pub is_dir: bool,
    pub mode: Option<u32>,
}

/// The planner's decision for an entry with stored name `raw` and
/// permission bits `mode`: `None` skips the entry (undecodable or unsafe
/// name, or nothing left to write); `Some` materializes it.  An entry
/// whose sanitized path is empty — an empty name, `.` or `./`, or the
/// toplevel directory itself when stripping is active — carries no
/// payload and is skipped even when stripping is off.
pub open spec fn plan_entry_spec(raw: Seq<u8>, mode: Option<u32>, do_strip: bool) -> Option<
    PlanSpec,
> {
    match decoded_name(raw) {
        None => None,
        Some(d) => match sanitize_name_spec(d) {
            None => None,
            Some(c) => {
                let kept = if do_strip && c.len() > 0 {
                    c.drop_first()
                } else {
                    c
                };
                if kept.len() == 0 || !components_safe(kept) || anchored_first(kept[0]) {
                    None
                } else {
                    Some(PlanSpec { components: kept, is_dir: is_dir_name(raw), mode })
                }
            },
        },
    }
}

/// Whether stripping is active for this archive: the caller asked for it
/// and every entry lies under one shared toplevel component.
pub open spec fn do_strip_spec(es: Seq<EntrySpec>, strip_requested: bool) -> bool {
    strip_requested && has_toplevel_spec(entry_names(es))
}

/// The planner's decision for every entry of the archive, in order.
pub open spec fn extraction_spec(es: Seq<EntrySpec>, strip_requested: bool) -> Seq<
    Option<PlanSpec>,
> {
    Seq::new(
        es.len(),
        |i: int| plan_entry_spec(es[i].name_raw, es[i].mode, do_strip_spec(es, strip_requested)),
    )
}

/// Computes the sanitized components of an entry's stored name.
pub fn entry_components_of(raw: &Vec<u8>) -> (r: Option<Vec<Vec<u8>>>)
    ensures
        r is Some <==> entry_components(raw@) is Some,
        r matches Some(v) ==> Some(v.deep_view()) == entry_components(raw@),
{
    match decode_entry_name(raw) {
        None => None,
        Some(d) => sanitize_name(&d),
    }
}

/// Decides whether every entry lies under one shared first path component,
/// which makes the archive eligible for toplevel stripping.
pub fn has_toplevel(metas: &Vec<EntryMeta>) -> (r: bool)
    ensures
        r == has_toplevel_spec(metas@.map_values(|m: EntryMeta| m.name_raw@)),
{
    let ghost names = metas@.map_values(|m: EntryMeta| m.name_raw@);
    if metas.len() < 2 {
        return false;
    }
    let c0 = match entry_components_of(&metas[0].name_raw) {
        None => {
            assert(first_component(names[0]) is None);
            return false;
        },
        Some(c) => c,
    };
    if c0.len() == 0 {
        assert(first_component(names[0]) is None);
        return false;
    }
    let candidate = &c0[0];
    proof {
        assert(first_component(names[0]) == Some(candidate@));
    }
    let mut i: usize = 1;
    while i < metas.len()
        invariant
            1 <= i <= metas.len(),
            names == metas@.map_values(|m: EntryMeta| m.name_raw@),
            first_component(names[0]) == Some(candidate@),
            forall|j: int| 0 <= j < i ==> #[trigger] first_component(names[j]) == Some(candidate@),
        decreases metas.len() - i,
    {
        let ci = match entry_components_of(&metas[i].name_raw) {
            None => {
                assert(first_component(names[i as int]) is None);
                return false;
            },
            Some(c) => c,
        };
        if ci.len() == 0 {
            assert(first_component(names[i as int]) is None);
            return false;
        }
        if !bytes_eq(&ci[0], candidate) {
            assert(first_component(names[i as int]) == Some(ci@[0]@));
            assert(first_component(names[i as int]) != first_component(names[0]));
            return false;
        }
        proof {
            assert(first_component(names[i as int]) == Some(ci@[0]@));
        }
        i = i + 1;
    }
    true
}

/// The planner's decision for one entry, as executable data: the sanitized
/// relative path, the entry kind, and the permission bits to apply.
pub struct EntryPlan {
    pub components: Vec<Vec<u8>>,
    pub is_dir: bool,
    pub mode: Option<u32>,
}

impl View for EntryPlan {
    type V = PlanSpec;

    open spec fn view(&self) -> PlanSpec {
        PlanSpec {
            components: self.components.deep_view(),
            is_dir: self.is_dir,
            mode: self.mode,
        }
    }
}

/// Plans one entry: decodes and sanitizes its stored name, strips the
/// first component when `do_strip` is set — re-checking that what remains
/// neither climbs above the root nor starts with a drive or volume anchor
/// the strip uncovered — and skips the entry (`None`) when the name is
/// undecodable or unsafe, or nothing is left to write.
pub fn plan_entry(meta: &EntryMeta, do_strip: bool) -> (r: Option<EntryPlan>)
    ensures
        r is Some <==> plan_entry_spec(meta.name_raw@, meta.mode, do_strip) is Some,
        r matches Some(p) ==> Some(p@) == plan_entry_spec(meta.name_raw@, meta.mode, do_strip),
{
    let d = match decode_entry_name(&meta.name_raw) {
        None => {
            return None;
        },
        Some(d) => d,
    };
    let mut kept = match sanitize_name(&d) {
        None => {
            return None;
        },
        Some(c) => c,
    };
    let ghost sanitized = kept.deep_view();
    if do_strip && kept.len() > 0 {
        kept.remove(0);
        proof {
            assert(kept.deep_view() =~~= sanitized.drop_first());
        }
    }
    if kept.len() == 0 {
        return None;
    }
    if !check_components(&kept) {
        return None;
    }
    if seg_is_anchored(&kept[0]) {
        proof {
            assert(kept.deep_view()[0] =~= kept@[0]@);
        }
        return None;
    }
    proof {
        assert(kept.deep_view()[0] =~= kept@[0]@);
    }
    let n = meta.name_raw.len();
    let is_dir = n > 0 && meta.name_raw[n - 1] == SLASH;
    Some(EntryPlan { components: kept, is_dir, mode: meta.mode })
}

} // verus!
