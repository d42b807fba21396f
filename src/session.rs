use vstd::prelude::*;

verus! {

/// Session-scoped state of the extension: the frames counted since the
/// current map started and the player limit the host reported for it.
pub struct MyExtension {
    pub frame_count: u32,
    pub client_max: i32,
}

/// Token handed to plugins so that the host's diagnostics can ask for the
/// memory the registry uses. It carries no data of its own.
#[derive(Clone, Copy, Debug, PartialEq, Eq, Structural)]
pub struct ClosestPosSizeTracker(pub u32);

impl ClosestPosSizeTracker {
    pub fn new() -> (r: Self)
        ensures
            r.0 == 0,
    {
        ClosestPosSizeTracker(0)
    }
}

/// Starts a session: the frame count goes back to zero and the host's
/// player limit is kept.
pub fn map_start(ext: &mut MyExtension, client_max: i32)
    ensures
        final(ext).frame_count == 0,
        final(ext).client_max == client_max,
{
    ext.frame_count = 0;
    ext.client_max = client_max;
}

/// Ends a session. Nothing in the core is tied to the end of a map.
pub fn map_end() {
}

impl MyExtension {
    pub fn new() -> (r: Self)
        ensures
            r.frame_count == 0,
            r.client_max == 0,
    {
        MyExtension { frame_count: 0, client_max: 0 }
    }

    pub fn on_core_map_start(&mut self, client_max: i32)
        ensures
            final(self).frame_count == 0,
            final(self).client_max == client_max,
    {
        map_start(self, client_max);
    }

    pub fn on_core_map_end(&mut self)
        ensures
            *final(self) == *old(self),
    {
        map_end();
    }

    /// Counts one simulation frame, wrapping at `u32::MAX`.
    pub fn on_game_frame(&mut self)
        ensures
            final(self).frame_count == (old(self).frame_count + 1) % 0x1_0000_0000,
            final(self).client_max == old(self).client_max,
    {
        self.frame_count = self.frame_count.wrapping_add(1);
    }
}

} // verus!
