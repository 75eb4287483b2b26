//! The readiness check: decide which drawables a capture sphere keeps, and
//! count how many of them will actually draw, so the bake can tell an
//! incomplete frame (resources still uploading) from a complete one.
//!
//! The sphere-overlap test itself is float work done by the host; its
//! verdict arrives here as a plain flag beside the other per-entity facts,
//! and the culling rule is applied exactly.

use vstd::prelude::*;

use crate::bake::BakeState;

verus! {

/// The per-entity facts the readiness check looks at.
#[derive(Clone, Copy, Debug, PartialEq, Eq, Structural)]
pub struct VisibilityEntity {
    /// The entity is not hidden by its hierarchy.
    pub inherited_visible: bool,
    /// Its render layers intersect the capture camera's layers.
    pub layers_intersect: bool,
    /// It has a bounding box to cull against.
    pub has_aabb: bool,
    /// It opted out of frustum culling.
    pub no_frustum_culling: bool,
    /// Its bounding sphere overlaps the capture sphere (the host computes
    /// this float test).
    pub within_capture_radius: bool,
    /// It draws with a bakeable material and a mesh.
    pub has_material_and_mesh: bool,
}

/// The culling rule: visible entities are the unhidden, layer-matching ones
/// that either opt out of culling (theirs or the camera's), have no bounds,
/// or overlap the capture sphere.
pub open spec fn spec_entity_visible(e: VisibilityEntity, no_cpu_culling: bool) -> bool {
    e.inherited_visible && e.layers_intersect && (e.no_frustum_culling || no_cpu_culling
        || !e.has_aabb || e.within_capture_radius)
}

/// Recompute the visible set for one capture camera. A finished
/// non-continuous camera selects nothing (its visible set stays cleared);
/// otherwise each entity is kept exactly by the culling rule. Recomputing
/// on unchanged facts returns the same set.
pub fn check_imposter_visibility(
    entities: &Vec<VisibilityEntity>,
    no_cpu_culling: bool,
    continuous: bool,
    state: BakeState,
) -> (r: Option<Vec<bool>>)
    ensures
        r is None <==> (!continuous && state is Finished),
        match r {
            None => true,
            Some(v) => v@.len() == entities@.len() && forall|i: int|
                0 <= i < v@.len() ==> #[trigger] v@[i] == spec_entity_visible(
                    entities@[i],
                    no_cpu_culling,
                ),
        },
{
    let finished = match state {
        BakeState::Finished => true,
        _ => false,
    };
    if !continuous && finished {
        return None;
    }
    let mut v: Vec<bool> = Vec::new();
    let mut i: usize = 0;
    while i < entities.len()
        invariant
            i <= entities@.len(),
            v@.len() == i,
            forall|j: int|
                0 <= j < i ==> #[trigger] v@[j] == spec_entity_visible(
                    entities@[j],
                    no_cpu_culling,
                ),
        decreases entities@.len() - i,
    {
        let e = entities[i];
        let visible = e.inherited_visible && e.layers_intersect && (e.no_frustum_culling
            || no_cpu_culling || !e.has_aabb || e.within_capture_radius);
        v.push(visible);
        i = i + 1;
    }
    Some(v)
}

/// How many of the first `n` entities are visible and draw with a bakeable
/// material and mesh.
pub open spec fn spec_expected_count(
    entities: Seq<VisibilityEntity>,
    visible: Seq<bool>,
    n: int,
) -> int
    decreases n,
{
    if n <= 0 {
        0int
    } else {
        spec_expected_count(entities, visible, n - 1) + (if visible[n - 1]
            && entities[n - 1].has_material_and_mesh {
            1int
        } else {
            0int
        })
    }
}

/// Count the expected draws: the visible entities that hold both a
/// bakeable material and a mesh. The bake's readiness probe compares the
/// observed draw count against this number.
pub fn count_expected_imposter_materials(
    entities: &Vec<VisibilityEntity>,
    visible: &Vec<bool>,
) -> (r: usize)
    requires
        visible@.len() == entities@.len(),
    ensures
        r == spec_expected_count(entities@, visible@, entities@.len() as int),
{
    let mut count: usize = 0;
    let mut i: usize = 0;
    while i < entities.len()
        invariant
            i <= entities@.len(),
            visible@.len() == entities@.len(),
            count == spec_expected_count(entities@, visible@, i as int),
            count <= i,
        decreases entities@.len() - i,
    {
        let e = entities[i];
        if visible[i] && e.has_material_and_mesh {
            count = count + 1;
        }
        i = i + 1;
    }
    count
}

} // verus!
