use vstd::prelude::*;

verus! {

use crate::{fx_div, fx_mul, V2};
use crate::element::{CapKind, Capability, ModuleTool};
use crate::scene::{hub_init_frame, Hub, SceneEvent};

/// An orthographic clip transform: the two diagonal scale entries of the
/// 3x3 matrix `[[sx, 0, 0], [0, sy, 0], [0, 0, 1]]`.
#[derive(Clone, Copy, Debug)]
pub struct ClipMatrix {
    pub sx: i64,
    pub sy: i64,
}

/// The identity clip transform.
pub open spec fn identity_clip() -> ClipMatrix {
    ClipMatrix { sx: crate::FX_ONE as i64, sy: crate::FX_ONE as i64 }
}

/// `fx_div`, with zero for a zero divisor.
pub open spec fn fx_div0(a: int, b: int) -> int {
    if b == 0 {
        0
    } else {
        fx_div(a, b)
    }
}

/// A simple scene camera: a centre position and a world-units-per-screen
/// scale, at a fixed design aspect ratio.
#[derive(Clone, Copy, Debug)]
pub struct DefaultCamera {
    pub pos: V2<i64>,
    pub scale: i64,
    pub aspect: i64,
}

/// The camera's clip transform for a window of `w` by `h` pixels: the view
/// keeps the design aspect, widening or heightening to fill the window.
pub open spec fn spec_clip_matrix(cam: DefaultCamera, w: u32, h: u32) -> ClipMatrix {
    let ar = if h == 0 {
        0int
    } else {
        (w * 1000) / (h as int)
    };
    let width0 = cam.scale as int;
    let height0 = fx_div0(cam.scale as int, cam.aspect as int);
    let width = if ar > cam.aspect {
        fx_mul(height0, ar)
    } else {
        width0
    };
    let height = if ar < cam.aspect {
        fx_div0(width0, ar)
    } else {
        height0
    };
    ClipMatrix { sx: fx_div0(2000, width) as i64, sy: fx_div0(2000, height) as i64 }
}

impl Default for DefaultCamera {
    fn default() -> (r: DefaultCamera)
        ensures
            r.pos == (V2 { x: 0i64, y: 0i64 }),
            r.scale == 20 * crate::FX_ONE,
            r.aspect == fx_div(16000, 9000),
    {
        DefaultCamera { pos: V2 { x: 0, y: 0 }, scale: 20000, aspect: 1777 }
    }
}

impl DefaultCamera {
    /// Set-up: a camera that can discover the scene's broadcast channel
    /// asks to become the active camera.
    pub fn init(&self, uuid: u128, mods: &ModuleTool, hub: &mut Hub)
        requires
            mods.wf(),
            old(hub).wf(),
        ensures
            final(hub).wf(),
            hub_init_frame(*old(hub), *final(hub)),
            spec_camera_init(uuid, *mods, *old(hub), *final(hub)),
            crate::scene::hub_view(*final(hub)) == (if crate::scene::discovery_of_mods(
                *mods,
            ).broadcast {
                crate::scene::scene_broadcast_view(
                    crate::scene::hub_view(*old(hub)),
                    SceneEvent::SetCamera(uuid),
                )
            } else {
                crate::scene::hub_view(*old(hub))
            }),
    {
        let ghost v0 = crate::scene::hub_view(*hub);
        match mods.access("scene broadcast", CapKind::SceneChannel) {
            Some(Capability::SceneChannel(_)) => {
                hub.scene_bus.send(SceneEvent::SetCamera(uuid));
                proof {
                    assert(crate::scene::hub_view(*hub) =~~= crate::scene::scene_broadcast_view(
                        v0,
                        SceneEvent::SetCamera(uuid),
                    ));
                }
            },
            _ => {},
        }
    }

    /// The camera's clip transform for the given window size.
    pub fn clip_matrix(&self, window_size: [u32; 2]) -> (r: ClipMatrix)
        ensures
            r == spec_clip_matrix(*self, window_size[0], window_size[1]),
    {
        let w = window_size[0];
        let h = window_size[1];
        let ar: i64 = if h == 0 {
            0
        } else {
            ((w as u64 * 1000) / (h as u64)) as i64
        };
        let width0 = self.scale;
        let height0 = crate::sat_div(self.scale, self.aspect);
        let width = if ar > self.aspect {
            crate::sat_mul(height0, ar)
        } else {
            width0
        };
        let height = if ar < self.aspect {
            crate::sat_div(width0, ar)
        } else {
            height0
        };
        ClipMatrix { sx: crate::sat_div(2000, width), sy: crate::sat_div(2000, height) }
    }

    /// The camera's world offset.
    pub fn offset(&self) -> (r: V2<i64>)
        ensures
            r == self.pos,
    {
        self.pos
    }
}

/// The exact effect of a camera's set-up call on the hub: where the
/// broadcast channel is discoverable, one camera-selection event is
/// appended to every broadcast subscriber queue; nothing else changes.
pub open spec fn spec_camera_init(uuid: u128, mods: ModuleTool, h0: Hub, h1: Hub) -> bool {
    let announces = mods.spec_access("scene broadcast"@, CapKind::SceneChannel) is Some;
    &&& announces ==> h1.scene_bus.queues().len() == h0.scene_bus.queues().len() && (forall|
        i: int,
    |
        0 <= i < h0.scene_bus.queues().len() ==> h1.scene_bus.queues()[i]
            == h0.scene_bus.queues()[i].push(SceneEvent::SetCamera(uuid)))
    &&& forall|k: u128| h1.scene_bus.routed_has(k) == h0.scene_bus.routed_has(k)
    &&& forall|k: u128| h1.scene_bus.routed_q(k) == h0.scene_bus.routed_q(k)
    &&& !announces ==> h1.scene_bus == h0.scene_bus
    &&& h1.tags == h0.tags
    &&& h1.pom == h0.pom
    &&& h1.input == h0.input
}

} // verus!
