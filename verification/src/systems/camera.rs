//! The camera: the one the game asked for by default, and whether there is one.
use vstd::prelude::*;
use crate::components::{fresh_transform, Camera, Transform};
use crate::world::{Components, EntityRecord, GameData};

verus! {

/// The entity `r` asks for the default camera and has no camera yet.
pub open spec fn wants_default_camera(r: EntityRecord) -> bool {
    r.components.default_camera && r.components.camera is None
}

/// The entity `r` once it got the default camera, sized `width` by `height`: a
/// camera, a new transform, and no longer the request.
pub open spec fn with_default_camera(r: EntityRecord, width: u32, height: u32) -> EntityRecord {
    if wants_default_camera(r) {
        EntityRecord {
            id: r.id,
            components: Components {
                camera: Some(Camera { width, height }),
                transform: Some(fresh_transform(0)),
                default_camera: false,
                ..r.components
            },
        }
    } else {
        r
    }
}

/// System responsible of adding a camera, sized after the window, and a new
/// transform on each entity that asks for the default camera; the entity then no
/// longer asks for it.
pub fn default_camera_system(data: &mut GameData)
    ensures
        final(data).next_id == old(data).next_id,
        final(data).resources == old(data).resources,
        final(data).entities@.len() == old(data).entities@.len(),
        forall|k: int|
            0 <= k < old(data).entities@.len() ==> #[trigger] final(data).entities@[k] == with_default_camera(
                old(data).entities@[k],
                old(data).resources.window.width,
                old(data).resources.window.height,
            ),
{
    let ghost es = data.entities@;
    let n = data.entities.len();
    let mut k: usize = 0;
    while k < n
        invariant
            n == es.len(),
            es == old(data).entities@,
            data.entities@.len() == n,
            data.next_id == old(data).next_id,
            data.resources == old(data).resources,
            k <= n,
            forall|j: int|
                0 <= j < k ==> #[trigger] data.entities@[j] == with_default_camera(
                    es[j],
                    data.resources.window.width,
                    data.resources.window.height,
                ),
            forall|j: int| k <= j < n ==> #[trigger] data.entities@[j] == es[j],
        decreases n - k,
    {
        let ghost before = data.entities@;
        if data.entities[k].components.default_camera && data.entities[k].components.camera.is_none() {
            let camera = Camera { width: data.resources.window.width, height: data.resources.window.height };
            data.entities[k].components.camera = Some(camera);
            data.entities[k].components.transform = Some(Transform::from_layer(0));
            data.entities[k].components.default_camera = false;
        }
        assert(data.entities@[k as int] == with_default_camera(
            es[k as int],
            data.resources.window.width,
            data.resources.window.height,
        ));
        assert forall|j: int| 0 <= j < n && j != k implies #[trigger] data.entities@[j] == before[j] by {}
        k = k + 1;
    }
}

/// Whether some entity of `data` has a camera.
pub fn world_contains_camera(data: &GameData) -> (r: bool)
    ensures
        r == exists|i: int| 0 <= i < data.entities@.len() && (#[trigger] data.entities@[i]).components.camera is Some,
{
    let mut k: usize = 0;
    while k < data.entities.len()
        invariant
            k <= data.entities@.len(),
            forall|j: int| 0 <= j < k ==> (#[trigger] data.entities@[j]).components.camera is None,
        decreases data.entities.len() - k,
    {
        if data.entities[k].components.camera.is_some() {
            assert(data.entities@[k as int].components.camera is Some);
            return true;
        }
        k = k + 1;
    }
    false
}

} // verus!
