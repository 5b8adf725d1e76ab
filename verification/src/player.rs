//! The player's lives, the life icons shown for them, and when the player's
//! submarine fires.

use vstd::prelude::*;

verus! {

pub const STARTING_LIVES: u8 = 3;

/// The number of lives the player has left.
#[derive(PartialEq, Eq, Structural, Clone, Copy, Debug)]
pub struct Lives(pub u8);

impl Lives {
    /// The lives of a new game.
    pub fn new() -> (r: Lives)
        ensures
            r.0 == STARTING_LIVES,
    {
        Lives(STARTING_LIVES)
    }

    /// A hit costs one life; with none left the count stays at zero.
    pub fn lose_one(&mut self)
        ensures
            final(self).0 == if old(self).0 > 0 {
                old(self).0 - 1
            } else {
                0
            },
    {
        if self.0 > 0 {
            self.0 = self.0 - 1;
        }
    }
}

/// The 1-based indices of the life icons to add when `shown` icons are on
/// screen and the player has `lives` lives: `shown + 1` up to `lives`.
pub open spec fn icons_to_add(shown: nat, lives: nat) -> Seq<nat> {
    Seq::new((if lives > shown { lives - shown } else { 0 }) as nat, |i: int| (shown + 1 + i) as nat)
}

/// An icon is removed when its index exceeds the lives left.
pub open spec fn icon_is_stale(icon: nat, lives: nat) -> bool {
    icon > lives
}

/// The indices of the life icons to spawn, in increasing order, when `shown`
/// icons are displayed and the player has `lives` lives.
pub fn life_icons_to_spawn(shown: usize, lives: u8) -> (r: Vec<u8>)
    requires
        shown < usize::MAX,
    ensures
        r@.len() == icons_to_add(shown as nat, lives as nat).len(),
        forall|i: int| 0 <= i < r@.len() ==> r@[i] == icons_to_add(shown as nat, lives as nat)[i],
{
    let mut r: Vec<u8> = Vec::new();
    let last: usize = lives as usize;
    let mut i: usize = shown + 1;
    while i <= last
        invariant
            last == lives,
            shown + 1 <= i,
            i <= last + 1 || i == shown + 1,
            r@.len() == i - (shown + 1),
            forall|j: int| 0 <= j < r@.len() ==> r@[j] == shown + 1 + j,
        decreases last + 1 - i,
    {
        r.push(i as u8);
        i = i + 1;
    }
    r
}

/// Whether the icon for life number `icon` has to go.
pub fn life_icon_is_stale(icon: u8, lives: u8) -> (r: bool)
    ensures
        r == icon_is_stale(icon as nat, lives as nat),
{
    icon > lives
}

/// Refreshing the life icons shows exactly the player's lives: when the
/// icons `1..=shown` are on screen, keeping those that are not stale and
/// adding the new ones leaves exactly the icons `1..=lives`.
pub proof fn lemma_icons_match_lives(shown: nat, lives: nat, icon: nat)
    ensures
        ((1 <= icon <= shown && !icon_is_stale(icon, lives)) || icons_to_add(
            shown,
            lives,
        ).contains(icon)) <==> 1 <= icon <= lives,
{
    let added = icons_to_add(shown, lives);
    if 1 <= icon <= lives && icon > shown {
        assert(added[icon - shown - 1] == icon);
    }
    if added.contains(icon) {
        let i = choose|i: int| 0 <= i < added.len() && added[i] == icon;
        assert(added[i] == shown + 1 + i);
    }
}

/// What the firing control does on a tick.
#[derive(PartialEq, Eq, Structural, Clone, Copy, Debug)]
pub enum ShotDecision {
    /// The cooldown since the last shot has not run out.
    CoolingDown,
    /// Ready, but the fire key is not held.
    Hold,
    /// Fire a torpedo and restart the cooldown.
    Fire,
}

/// The firing decision from the state of the cooldown timer (after this
/// tick) and the fire key.
pub fn shot_decision(cooldown_finished: bool, fire_pressed: bool) -> (r: ShotDecision)
    ensures
        r == if !cooldown_finished {
            ShotDecision::CoolingDown
        } else if fire_pressed {
            ShotDecision::Fire
        } else {
            ShotDecision::Hold
        },
{
    if !cooldown_finished {
        ShotDecision::CoolingDown
    } else if fire_pressed {
        ShotDecision::Fire
    } else {
        ShotDecision::Hold
    }
}

} // verus!
