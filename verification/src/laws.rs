//! The guarantees of the planner, stated and proved once for all archives.

use crate::archive::EntrySpec;
use crate::decode::decoded_name;
use crate::paths::anchored_first;
use crate::paths::components_safe;
use crate::paths::contains_byte;
use crate::paths::lemma_sanitize_separator_free;
use crate::paths::lemma_sanitize_plain;
use crate::paths::lemma_sanitize_safe;
use crate::paths::lemma_segments_nonempty;
use crate::paths::plain_segment;
use crate::paths::sanitize_name_spec;
use crate::paths::separator_free;
use crate::paths::segments_of;
use crate::paths::BACKSLASH;
use crate::paths::COLON;
use crate::paths::NUL;
use crate::paths::SLASH;
use crate::plan::do_strip_spec;
use crate::plan::entry_components;
use crate::plan::entry_names;
use crate::plan::extraction_spec;
use crate::plan::first_component;
use crate::plan::has_toplevel_spec;
use crate::plan::is_dir_name;
use crate::plan::plan_entry_spec;
use vstd::prelude::*;

verus! {

/// Traversal rejection: whatever the archive holds, every path the planner
/// emits is non-empty and safe — no prefix of it climbs above the target
/// directory, no component holds a `/` or NUL byte, and the first
/// component is no drive, volume or backslash anchor.  A hostile name is
/// skipped, never written.
pub proof fn lemma_planned_path_safe(raw: Seq<u8>, mode: Option<u32>, do_strip: bool)
    ensures
        plan_entry_spec(raw, mode, do_strip) matches Some(p) ==> p.components.len() > 0
            && components_safe(p.components) && !anchored_first(p.components[0]) && (forall|i: int|
            0 <= i < p.components.len() ==> separator_free(#[trigger] p.components[i])),
{
    if plan_entry_spec(raw, mode, do_strip) is Some {
        let d = decoded_name(raw).unwrap();
        let c = sanitize_name_spec(d).unwrap();
        lemma_sanitize_separator_free(d);
        let p = plan_entry_spec(raw, mode, do_strip).unwrap();
        assert forall|i: int| 0 <= i < p.components.len() implies separator_free(
            #[trigger] p.components[i],
        ) by {
            if do_strip && c.len() > 0 {
                assert(p.components[i] == c[i + 1]);
            } else {
                assert(p.components[i] == c[i]);
            }
        }
    }
}

/// A single-entry archive is never subject to stripping, whatever the
/// caller requested: its extraction is the extraction with stripping off.
pub proof fn lemma_single_entry_not_stripped(es: Seq<EntrySpec>, strip_requested: bool)
    requires
        es.len() == 1,
    ensures
        !do_strip_spec(es, strip_requested),
        extraction_spec(es, strip_requested) == extraction_spec(es, false),
{
    assert(extraction_spec(es, strip_requested) =~= extraction_spec(es, false));
}

/// An archive whose entries disagree on their first path component never
/// qualifies for stripping: its extraction is the extraction with
/// stripping off.
pub proof fn lemma_mixed_roots_not_stripped(
    es: Seq<EntrySpec>,
    strip_requested: bool,
    i: int,
    j: int,
)
    requires
        0 <= i < es.len(),
        0 <= j < es.len(),
        first_component(es[i].name_raw) != first_component(es[j].name_raw),
    ensures
        !has_toplevel_spec(entry_names(es)),
        extraction_spec(es, strip_requested) == extraction_spec(es, false),
{
    let names = entry_names(es);
    assert(names[i] == es[i].name_raw);
    assert(names[j] == es[j].name_raw);
    if has_toplevel_spec(names) {
        assert(first_component(names[i]) == first_component(names[0]));
        assert(first_component(names[j]) == first_component(names[0]));
    }
    assert(extraction_spec(es, strip_requested) =~= extraction_spec(es, false));
}

/// With stripping off, an archive that qualifies for stripping extracts to
/// the same tree as the stripped extraction, rooted one level deeper: each
/// entry keeps its full sanitized path, whose first component is the
/// shared toplevel, and the stripped plan — where one exists — is the same
/// output one component shorter.  The entry that is the toplevel directory
/// itself has nothing left after stripping and is skipped there, as is
/// one whose remainder climbs above the root or begins with a drive or
/// volume anchor that the strip uncovered.
pub proof fn lemma_strip_against_preserve(es: Seq<EntrySpec>)
    requires
        has_toplevel_spec(entry_names(es)),
    ensures
        forall|i: int|
            0 <= i < es.len() ==> {
                let c = entry_components(#[trigger] es[i].name_raw).unwrap();
                let kept = extraction_spec(es, false)[i];
                let stripped = extraction_spec(es, true)[i];
                &&& entry_components(es[i].name_raw) is Some
                &&& c.len() > 0
                &&& kept matches Some(k) && k.components == c && k.mode == es[i].mode
                &&& (c.len() == 1 ==> stripped is None)
                &&& (c.len() > 1 && components_safe(c.drop_first()) && !anchored_first(c[1])
                    ==> (stripped matches Some(s) && s.components == c.drop_first() && s.is_dir
                    == kept.unwrap().is_dir && s.mode == kept.unwrap().mode))
            },
{
    let names = entry_names(es);
    assert forall|i: int| 0 <= i < es.len() implies {
        let c = entry_components(#[trigger] es[i].name_raw).unwrap();
        let kept = extraction_spec(es, false)[i];
        let stripped = extraction_spec(es, true)[i];
        &&& entry_components(es[i].name_raw) is Some
        &&& c.len() > 0
        &&& kept matches Some(k) && k.components == c && k.mode == es[i].mode
        &&& (c.len() == 1 ==> stripped is None)
        &&& (c.len() > 1 && components_safe(c.drop_first()) && !anchored_first(c[1]) ==> (stripped
            matches Some(s) && s.components == c.drop_first() && s.is_dir == kept.unwrap().is_dir
            && s.mode == kept.unwrap().mode))
    } by {
        let raw = es[i].name_raw;
        assert(names[i] == raw);
        assert(first_component(names[i]) == first_component(names[0]));
        assert(first_component(names[0]) is Some);
        let d = decoded_name(raw).unwrap();
        lemma_sanitize_safe(d);
        assert(extraction_spec(es, false)[i] == plan_entry_spec(raw, es[i].mode, false));
        assert(extraction_spec(es, true)[i] == plan_entry_spec(raw, es[i].mode, true));
    }
}

/// Stripping equivalence: extracting archive `a` with stripping, when all
/// its entries lie under one shared toplevel, plans exactly what
/// extracting archive `b` without stripping plans, where `b` holds the
/// same entries with the toplevel component removed from their names.
pub proof fn lemma_strip_equivalence(a: Seq<EntrySpec>, b: Seq<EntrySpec>)
    requires
        has_toplevel_spec(entry_names(a)),
        b.len() == a.len(),
        forall|i: int|
            0 <= i < a.len() ==> {
                &&& #[trigger] entry_components(b[i].name_raw) == Some(
                    entry_components(a[i].name_raw).unwrap().drop_first(),
                )
                &&& is_dir_name(b[i].name_raw) == is_dir_name(a[i].name_raw)
                &&& b[i].mode == a[i].mode
            },
    ensures
        extraction_spec(a, true) == extraction_spec(b, false),
{
    let names = entry_names(a);
    assert forall|i: int| 0 <= i < a.len() implies extraction_spec(a, true)[i] == extraction_spec(
        b,
        false,
    )[i] by {
        let ra = a[i].name_raw;
        let rb = b[i].name_raw;
        assert(names[i] == ra);
        assert(first_component(names[i]) == first_component(names[0]));
        assert(first_component(names[0]) is Some);
        assert(first_component(ra) is Some);
        let ca = entry_components(ra).unwrap();
        assert(ca.len() > 0);
        assert(entry_components(rb) == Some(ca.drop_first()));
        assert(extraction_spec(a, true)[i] == plan_entry_spec(ra, a[i].mode, true));
        assert(extraction_spec(b, false)[i] == plan_entry_spec(rb, b[i].mode, false));
    }
    assert(extraction_spec(a, true) =~= extraction_spec(b, false));
}

/// Round trip of plain paths: an entry whose decoded name is made only of
/// plain segments — no `.`, `..`, separators or NUL bytes inside them — is
/// planned, without stripping, at exactly its own relative path.
pub proof fn lemma_plain_name_round_trip(raw: Seq<u8>, mode: Option<u32>, d: Seq<u8>)
    requires
        d.len() > 0,
        d[0] != SLASH,
        !contains_byte(d, NUL),
        !contains_byte(d, BACKSLASH),
        !contains_byte(d, COLON),
        forall|i: int|
            0 <= i < segments_of(d).len() ==> plain_segment(#[trigger] segments_of(d)[i]),
    ensures
        decoded_name(raw) == Some(d) ==> (plan_entry_spec(raw, mode, false) matches Some(p)
            && p.components == segments_of(d) && p.mode == mode && p.is_dir == is_dir_name(raw)),
{
    if decoded_name(raw) == Some(d) {
        lemma_sanitize_plain(d);
        lemma_segments_nonempty(d);
        lemma_sanitize_safe(d);
    }
}

} // verus!
