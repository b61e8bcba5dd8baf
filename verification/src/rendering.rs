//! The draw-order computation of the renderer: sprites are painted with the
//! painter's algorithm, back to front by y coordinate, so an entity lower on
//! the screen covers one standing behind it. Ties keep entity order. The
//! actual texture drawing is the host's business.

use crate::world::World;
use crate::world::WorldView;
use vstd::prelude::*;

verus! {

/// Entity `i` is drawn: it has both a position and a sprite.
pub open spec fn drawable(w: WorldView, i: int) -> bool {
    &&& 0 <= i < w.len()
    &&& w.positions[i] is Some
    &&& w.sprites[i] is Some
}

/// Entity `a` is painted strictly before entity `b`: it stands higher on
/// the screen, or at equal height was created earlier.
pub open spec fn draws_before(w: WorldView, a: int, b: int) -> bool {
    let ya = w.positions[a]->Some_0.y;
    let yb = w.positions[b]->Some_0.y;
    ya < yb || (ya == yb && a < b)
}

/// Swapping two elements changes no membership.
proof fn lemma_swap_contains(s1: Seq<usize>, s2: Seq<usize>, a: int, b: int)
    requires
        0 <= a < s1.len(),
        0 <= b < s1.len(),
        s2 == s1.update(a, s1[b]).update(b, s1[a]),
    ensures
        forall|x: usize| s1.contains(x) == s2.contains(x),
{
    assert forall|x: usize| s1.contains(x) == s2.contains(x) by {
        if s1.contains(x) {
            let t = choose|t: int| 0 <= t < s1.len() && s1[t] == x;
            if t == a {
                assert(s2[b] == x);
            } else if t == b {
                assert(s2[a] == x);
            } else {
                assert(s2[t] == x);
            }
        }
        if s2.contains(x) {
            let t = choose|t: int| 0 <= t < s2.len() && s2[t] == x;
            if t == a {
                assert(s1[b] == x);
            } else if t == b {
                assert(s1[a] == x);
            } else {
                assert(s1[t] == x);
            }
        }
    }
}

/// Whether `a` is painted before `b` under the painter's order.
fn painted_before(world: &World, a: usize, b: usize) -> (r: bool)
    requires
        world@.storages_aligned(),
        drawable(world@, a as int),
        drawable(world@, b as int),
    ensures
        r == draws_before(world@, a as int, b as int),
{
    let ya = world.positions[a].unwrap().y;
    let yb = world.positions[b].unwrap().y;
    ya < yb || (ya == yb && a < b)
}

/// The ids of every entity that has a sprite and a position, ordered back
/// to front for the painter's algorithm: ascending by y, ties in entity
/// order.
pub fn draw_order(world: &World) -> (order: Vec<usize>)
    requires
        world@.storages_aligned(),
    ensures
        forall|k: int| 0 <= k < order@.len() ==> drawable(world@, #[trigger] order@[k] as int),
        forall|i: int| drawable(world@, i) ==> order@.contains(i as usize),
        forall|a: int, b: int|
            0 <= a < b < order@.len() ==> draws_before(
                world@,
                #[trigger] order@[a] as int,
                #[trigger] order@[b] as int,
            ),
{
    let n = world.num_entities();
    let mut order: Vec<usize> = Vec::new();
    let mut i: usize = 0;
    while i < n
        invariant
            0 <= i <= n == world@.len(),
            world@.storages_aligned(),
            forall|k: int| 0 <= k < order@.len() ==> drawable(world@, #[trigger] order@[k] as int),
            forall|e: int| 0 <= e < i && drawable(world@, e) ==> order@.contains(e as usize),
            forall|a: int, b: int|
                0 <= a < b < order@.len() ==> #[trigger] order@[a] < #[trigger] order@[b],
            forall|k: int| 0 <= k < order@.len() ==> #[trigger] order@[k] < i,
        decreases n - i,
    {
        if world.positions[i].is_some() && world.sprites[i].is_some() {
            let ghost before = order@;
            order.push(i);
            proof {
                assert forall|e: int|
                    0 <= e < i + 1 && drawable(world@, e) implies order@.contains(e as usize) by {
                    if e < i {
                        let t = choose|t: int| 0 <= t < before.len() && before[t] == e as usize;
                        assert(order@[t] == e as usize);
                    } else {
                        assert(order@[before.len() as int] == i);
                    }
                }
            }
        }
        i = i + 1;
    }
    // insertion sort by the painter's order; it is a strict total order on
    // the distinct ids, so the result is fully determined
    let len = order.len();
    let mut s: usize = 1;
    while s < len
        invariant
            1 <= s <= len == order@.len() || (len == 0 && s == 1),
            world@.storages_aligned(),
            forall|k: int| 0 <= k < order@.len() ==> drawable(world@, #[trigger] order@[k] as int),
            forall|e: int| drawable(world@, e) ==> order@.contains(e as usize),
            forall|a: int, b: int|
                0 <= a < b < order@.len() && a != b ==> #[trigger] order@[a] != #[trigger] order@[b],
            forall|a: int, b: int|
                0 <= a < b < s ==> draws_before(
                    world@,
                    #[trigger] order@[a] as int,
                    #[trigger] order@[b] as int,
                ),
        decreases len - s,
    {
        let mut j: usize = s;
        while j > 0 && painted_before(world, order[j], order[j - 1])
            invariant
                0 <= j <= s < len == order@.len(),
                world@.storages_aligned(),
                forall|k: int| 0 <= k < order@.len() ==> drawable(
                    world@,
                    #[trigger] order@[k] as int,
                ),
                forall|e: int| drawable(world@, e) ==> order@.contains(e as usize),
                forall|a: int, b: int|
                    0 <= a < b < order@.len() && a != b ==> #[trigger] order@[a]
                        != #[trigger] order@[b],
                forall|a: int, b: int|
                    0 <= a < b <= s && b != j ==> draws_before(
                        world@,
                        #[trigger] order@[a] as int,
                        #[trigger] order@[b] as int,
                    ),
            decreases j,
        {
            let ghost before = order@;
            let x = order[j - 1];
            let y = order[j];
            order[j - 1] = y;
            order[j] = x;
            proof {
                lemma_swap_contains(before, order@, j - 1, j as int);
                assert forall|e: int| drawable(world@, e) implies order@.contains(e as usize) by {
                    assert(before.contains(e as usize));
                }
            }
            j = j - 1;
        }
        s = s + 1;
    }
    order
}

} // verus!
