//! One-shot level objects composed on top of the core: springs that bounce
//! the player once per cooldown, and coins collected on cell contact.

use vstd::prelude::*;

use crate::markers::{spec_active, Markers, Stamp, Tag};
use crate::movement::{IVec2, Speed};
use crate::{SPRUNG_MS, VEL_LIMIT};

verus! {

/// A spring tile: bounces an entity standing on its cell by adding an
/// upward impulse, in units.
#[derive(Clone, Copy, Debug, PartialEq, Eq, Structural)]
pub struct Spring {
    pub force: i64,
}

/// Bounce the player off a spring: when the player shares the spring's cell
/// and the spring holds no live sprung marker, add the spring's force to
/// the vertical velocity and arm the cooldown; otherwise change nothing.
pub fn interact_spring_with_player(
    player_speed: &mut Speed,
    player_cell: IVec2,
    spring_cell: IVec2,
    spring: &Spring,
    spring_markers: &mut Markers,
    now: u64,
)
    requires
        old(player_speed).wf(),
        -VEL_LIMIT <= old(player_speed).velocity.y + spring.force <= VEL_LIMIT,
    ensures
        ({
            let fires = player_cell == spring_cell && !spec_active(
                old(spring_markers)@,
                Tag::Sprung,
                now,
            );
            &&& final(player_speed).velocity.y == old(player_speed).velocity.y + (if fires {
                spring.force as int
            } else {
                0
            })
            &&& final(spring_markers)@ == (if fires {
                old(spring_markers)@.insert(
                    Tag::Sprung,
                    Stamp { created_at: now, destroy_after: Some(SPRUNG_MS) },
                )
            } else {
                old(spring_markers)@
            })
        }),
        final(player_speed).velocity.x == old(player_speed).velocity.x,
        final(player_speed).friction == old(player_speed).friction,
        final(player_speed).wf(),
{
    if player_cell == spring_cell && !spring_markers.contains(Tag::Sprung, now) {
        player_speed.velocity.y = player_speed.velocity.y + spring.force;
        spring_markers.add_marker_for(Tag::Sprung, SPRUNG_MS, now);
    }
}

/// The indices of the coins standing on `target`, in increasing order.
pub open spec fn spec_coins_on_cell(cells: Seq<IVec2>, target: IVec2) -> Seq<int>
    decreases cells.len(),
{
    if cells.len() == 0 {
        Seq::empty()
    } else {
        let rest = spec_coins_on_cell(cells.drop_last(), target);
        if cells.last() == target {
            rest.push(cells.len() - 1)
        } else {
            rest
        }
    }
}

/// Collect every coin that shares the player's cell: bump the coin counter
/// once per coin and hand back the picked indices (for the caller to
/// despawn and replace with pickup effects), in increasing order.
pub fn interact_coin_with_player(
    player_cell: IVec2,
    coin_cells: &Vec<IVec2>,
    coin_count: &mut u32,
) -> (picked: Vec<usize>)
    requires
        *old(coin_count) + coin_cells@.len() <= u32::MAX,
    ensures
        picked@.map_values(|u: usize| u as int) == spec_coins_on_cell(coin_cells@, player_cell),
        *final(coin_count) == *old(coin_count) + picked@.len(),
{
    let mut picked: Vec<usize> = Vec::new();
    let mut i: usize = 0;
    assert(picked@.map_values(|u: usize| u as int) =~= spec_coins_on_cell(
        coin_cells@.subrange(0, 0),
        player_cell,
    ));
    while i < coin_cells.len()
        invariant
            i <= coin_cells@.len(),
            *old(coin_count) + coin_cells@.len() <= u32::MAX,
            picked@.len() <= i,
            *coin_count == *old(coin_count) + picked@.len(),
            picked@.map_values(|u: usize| u as int) == spec_coins_on_cell(
                coin_cells@.subrange(0, i as int),
                player_cell,
            ),
        decreases coin_cells@.len() - i,
    {
        let ghost prefix = coin_cells@.subrange(0, i as int);
        if coin_cells[i] == player_cell {
            picked.push(i);
            *coin_count = *coin_count + 1;
        }
        proof {
            let prefix1 = coin_cells@.subrange(0, i + 1);
            assert(prefix1.drop_last() =~= prefix);
            assert(prefix1.last() == coin_cells@[i as int]);
            assert(picked@.map_values(|u: usize| u as int) =~= spec_coins_on_cell(
                prefix1,
                player_cell,
            ));
        }
        i = i + 1;
    }
    proof {
        assert(coin_cells@.subrange(0, coin_cells@.len() as int) =~= coin_cells@);
    }
    picked
}

} // verus!
