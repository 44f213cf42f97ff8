//! Choice of the rendition of an episode to download: the smallest picture
//! of the required media type, since only the audio is used.
use vstd::prelude::*;
use crate::error::PipelineError;

verus! {

/// One encoded variant of an episode's media.
#[derive(Debug)]
pub struct Rendition {
    pub width: u64,
    pub height: u64,
    pub url: String,
    pub mime_type: String,
}

/// Picture area of a rendition.
pub open spec fn area(r: Rendition) -> nat {
    r.width as nat * r.height as nat
}

pub open spec fn has_type(r: Rendition, mime_type: Seq<char>) -> bool {
    r.mime_type@ == mime_type
}

/// `rs[i]` has the required media type and the smallest area among those
/// that have it, the first of equals.
pub open spec fn is_selected(rs: Seq<Rendition>, mime_type: Seq<char>, i: int) -> bool {
    &&& 0 <= i < rs.len()
    &&& has_type(rs[i], mime_type)
    &&& forall|j: int|
        0 <= j < rs.len() && has_type(#[trigger] rs[j], mime_type) ==> area(rs[i]) <= area(rs[j])
    &&& forall|j: int|
        0 <= j < i && has_type(#[trigger] rs[j], mime_type) ==> area(rs[i]) < area(rs[j])
}

/// At most one rendition is selected: ties go to the first in input order.
pub proof fn lemma_selection_unique(rs: Seq<Rendition>, mime_type: Seq<char>, i: int, k: int)
    requires
        is_selected(rs, mime_type, i),
        is_selected(rs, mime_type, k),
    ensures
        i == k,
{
    if i < k {
        assert(has_type(rs[i], mime_type));
    }
    if k < i {
        assert(has_type(rs[k], mime_type));
    }
}

fn area_of(r: &Rendition) -> (a: u128)
    ensures
        a == area(*r),
{
    let w = r.width as u128;
    let h = r.height as u128;
    assert(w * h <= 0xffff_ffff_ffff_ffffu128 * 0xffff_ffff_ffff_ffffu128) by (nonlinear_arith)
        requires
            w <= 0xffff_ffff_ffff_ffffu128,
            h <= 0xffff_ffff_ffff_ffffu128,
    ;
    w * h
}

/// Selects, among the renditions of media type `mime_type`, the one of
/// smallest area (the first of equals); fails when none has that type.
pub fn select_rendition(renditions: &Vec<Rendition>, mime_type: &String) -> (r: Result<
    Rendition,
    PipelineError,
>)
    ensures
        match r {
            Ok(sel) => exists|i: int|
                is_selected(renditions@, mime_type@, i) && sel == #[trigger] renditions@[i],
            Err(e) => {
                &&& e == PipelineError::NoMatchingRendition
                &&& forall|j: int|
                    0 <= j < renditions@.len() ==> !has_type(#[trigger] renditions@[j], mime_type@)
            },
        },
{
    let mut found = false;
    let mut best: usize = 0;
    let mut best_area: u128 = 0;
    let mut i: usize = 0;
    while i < renditions.len()
        invariant
            i <= renditions@.len(),
            found ==> {
                &&& best < i
                &&& best_area == area(renditions@[best as int])
                &&& has_type(renditions@[best as int], mime_type@)
                &&& forall|j: int|
                    0 <= j < i && has_type(#[trigger] renditions@[j], mime_type@) ==> area(
                        renditions@[best as int],
                    ) <= area(renditions@[j])
                &&& forall|j: int|
                    0 <= j < best && has_type(#[trigger] renditions@[j], mime_type@) ==> area(
                        renditions@[best as int],
                    ) < area(renditions@[j])
            },
            !found ==> forall|j: int|
                0 <= j < i ==> !has_type(#[trigger] renditions@[j], mime_type@),
        decreases renditions@.len() - i,
    {
        let r = &renditions[i];
        assert(*r == renditions@[i as int]);
        if r.mime_type == *mime_type {
            let a = area_of(r);
            if !found || a < best_area {
                found = true;
                best = i;
                best_area = a;
            }
        }
        i = i + 1;
    }
    if !found {
        return Err(PipelineError::NoMatchingRendition);
    }
    let b = &renditions[best];
    let sel = Rendition {
        width: b.width,
        height: b.height,
        url: b.url.clone(),
        mime_type: b.mime_type.clone(),
    };
    assert(is_selected(renditions@, mime_type@, best as int));
    assert(sel == renditions@[best as int]);
    Ok(sel)
}

} // verus!
