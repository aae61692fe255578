//! Media ducking: while the user or the assistant speaks, the volume of the
//! playing media player is lowered, and restored afterwards. The service
//! asks the media players (finding the playing one, reading and setting its
//! volume); this state decides when to, and remembers what to restore.
//! Volumes are held as the bits of their IEEE-754 binary32 encoding.

use vstd::prelude::*;

verus! {

/// What ducking has saved: the player whose volume was lowered and the
/// volume it had before, while media is ducked.
#[derive(Debug)]
pub struct DuckState {
    saved: Option<(String, u32)>,
}

/// The saved player and volume, by their views.
pub open spec fn saved_view(saved: Option<(String, u32)>) -> Option<(Seq<char>, u32)> {
    match saved {
        Some((player, volume)) => Some((player@, volume)),
        None => None,
    }
}

/// Whether a request to duck goes to the media players: ducking is enabled
/// and media is not ducked already.
pub open spec fn spec_duck_wanted(enabled: bool, saved: Option<(Seq<char>, u32)>) -> bool {
    enabled && saved is None
}

/// The state after `player`, which had `volume`, has been turned down.
pub open spec fn spec_after_duck(player: Seq<char>, volume: u32) -> Option<(Seq<char>, u32)> {
    Some((player, volume))
}

/// The state after an unduck: nothing saved.
pub open spec fn spec_after_unduck() -> Option<(Seq<char>, u32)> {
    None
}

/// What an unduck restores: the player and volume saved when ducking, if any.
pub open spec fn spec_restore(saved: Option<(Seq<char>, u32)>) -> Option<(Seq<char>, u32)> {
    saved
}

impl View for DuckState {
    type V = Option<(Seq<char>, u32)>;

    closed spec fn view(&self) -> Option<(Seq<char>, u32)> {
        saved_view(self.saved)
    }
}

impl DuckState {
    /// Nothing ducked.
    pub fn new() -> (r: DuckState)
        ensures
            r@ is None,
    {
        DuckState { saved: None }
    }

    /// Whether media is ducked now.
    pub fn is_ducked(&self) -> (r: bool)
        ensures
            r == (self@ is Some),
    {
        self.saved.is_some()
    }

    /// Whether to duck now (see `spec_duck_wanted`): when this is false,
    /// ducking is a no-op.
    pub fn duck_wanted(&self, enabled: bool) -> (r: bool)
        ensures
            r == spec_duck_wanted(enabled, self@),
    {
        enabled && self.saved.is_none()
    }

    /// Records that `player`, which had `volume`, has been turned down.
    pub fn ducked(&mut self, player: String, volume: u32)
        requires
            old(self)@ is None,
        ensures
            final(self)@ == spec_after_duck(player@, volume),
    {
        self.saved = Some((player, volume));
    }

    /// Forgets the saved player and volume and gives them back to be
    /// restored (see `spec_restore`); nothing when media is not ducked.
    pub fn unduck(&mut self) -> (r: Option<(String, u32)>)
        ensures
            saved_view(r) == spec_restore(old(self)@),
            final(self)@ == spec_after_unduck(),
    {
        self.saved.take()
    }
}

/// From an undisturbed state, an enabled duck goes ahead, and the unduck
/// that follows restores the player to the volume it had before.
pub proof fn lemma_duck_then_unduck_restores(player: Seq<char>, volume: u32)
    ensures
        spec_duck_wanted(true, spec_after_unduck()),
        spec_restore(spec_after_duck(player, volume)) == Some((player, volume)),
{
}

/// While media is ducked, a second duck does nothing (so the saved volume
/// stays the one from before the first duck), and once it is unducked a
/// second unduck restores nothing.
pub proof fn lemma_duck_idempotent_until_unduck(player: Seq<char>, volume: u32, enabled: bool)
    ensures
        !spec_duck_wanted(enabled, spec_after_duck(player, volume)),
        spec_restore(spec_after_unduck()) is None,
{
}

} // verus!
