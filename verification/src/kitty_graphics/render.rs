//! What is drawn of the images: where, and which of them have to be handed over anew.

use super::model::KittyModel;
use super::KittyGraphicsState;
use vstd::prelude::*;

verus! {

/// An image that is drawn: where, over how many cells, and its size in pixels.
#[derive(Debug, Clone, Copy, PartialEq, Eq, Structural)]
pub struct ImagePlace {
    pub id: u32,
    pub col: usize,
    pub row: usize,
    pub cols: usize,
    pub rows: usize,
    pub width: u32,
    pub height: u32,
}

pub open spec fn at_least_one(n: u32) -> usize {
    if n > 1 {
        n as usize
    } else {
        1
    }
}

/// Where the first `n` placements whose image is there are drawn, in their order.
pub open spec fn places(m: KittyModel, n: int) -> Seq<ImagePlace>
    decreases n,
{
    if n <= 0 {
        Seq::empty()
    } else {
        let p = m.placements[n - 1];
        let before = places(m, n - 1);
        if m.store.images.dom().contains(p.image_id) {
            let image = m.store.images[p.image_id];
            before.push(
                ImagePlace {
                    id: p.image_id,
                    col: p.x as usize,
                    row: p.y as usize,
                    cols: at_least_one(p.width),
                    rows: at_least_one(p.height),
                    width: image.width,
                    height: image.height,
                },
            )
        } else {
            before
        }
    }
}

/// The images that the first `n` placements show, each once, by where it comes first.
pub open spec fn live_images(m: KittyModel, n: int) -> Seq<u32>
    decreases n,
{
    if n <= 0 {
        Seq::empty()
    } else {
        let id = m.placements[n - 1].image_id;
        let before = live_images(m, n - 1);
        if m.store.images.dom().contains(id) && !before.contains(id) {
            before.push(id)
        } else {
            before
        }
    }
}

/// Whether an image was handed over as it is now.
pub open spec fn is_handed_over(m: KittyModel, id: u32, handed: Seq<(u32, u64)>) -> bool {
    exists|i: int|
        0 <= i < handed.len() && #[trigger] handed[i] == (id, m.store.images[id].generation)
}

/// Those of some images that have to be handed over anew.
pub open spec fn stale_images(m: KittyModel, live: Seq<u32>, handed: Seq<(u32, u64)>) -> Seq<u32>
    decreases live.len(),
{
    if live.len() == 0 {
        Seq::empty()
    } else {
        let before = stale_images(m, live.drop_last(), handed);
        if is_handed_over(m, live.last(), handed) {
            before
        } else {
            before.push(live.last())
        }
    }
}

fn has_id(ids: &Vec<u32>, id: u32) -> (v: bool)
    ensures
        v == ids@.contains(id),
{
    let mut i: usize = 0;
    while i < ids.len()
        invariant
            i <= ids@.len(),
            forall|k: int| 0 <= k < i ==> ids@[k] != id,
        decreases ids@.len() - i,
    {
        if ids[i] == id {
            proof {
                assert(ids@[i as int] == id);
            }
            return true;
        }
        i = i + 1;
    }
    false
}

impl KittyGraphicsState {
    /// Where the placements whose image is there are drawn, in the order in which they
    /// are drawn.
    pub fn image_places(&self) -> (drawn: Vec<ImagePlace>)
        ensures
            drawn@ == places(self@, self@.placements.len() as int),
    {
        let placements = self.get_placements();
        let mut drawn: Vec<ImagePlace> = Vec::new();
        let mut i: usize = 0;
        proof {
            assert(drawn@ =~= places(self@, 0));
        }
        while i < placements.len()
            invariant
                i <= placements@.len(),
                placements@ == self@.placements,
                drawn@ == places(self@, i as int),
            decreases placements@.len() - i,
        {
            let p = placements[i];
            if let Some(image) = self.get_image(p.image_id) {
                drawn.push(
                    ImagePlace {
                        id: p.image_id,
                        col: p.x as usize,
                        row: p.y as usize,
                        cols: if p.width > 1 {
                            p.width as usize
                        } else {
                            1
                        },
                        rows: if p.height > 1 {
                            p.height as usize
                        } else {
                            1
                        },
                        width: image.width,
                        height: image.height,
                    },
                );
            }
            i = i + 1;
        }
        drawn
    }

    /// The images that are drawn, each once, and those of them that have to be handed
    /// over anew: `handed` are the images that were, with their generation.
    pub fn image_updates(&self, handed: &Vec<(u32, u64)>) -> (updates: (Vec<u32>, Vec<u32>))
        ensures
            updates.0@ == live_images(self@, self@.placements.len() as int),
            updates.1@ == stale_images(self@, updates.0@, handed@),
    {
        let placements = self.get_placements();
        let mut live: Vec<u32> = Vec::new();
        let mut stale: Vec<u32> = Vec::new();
        let mut i: usize = 0;
        proof {
            assert(live@ =~= live_images(self@, 0));
            assert(stale@ =~= stale_images(self@, live@, handed@));
        }
        while i < placements.len()
            invariant
                i <= placements@.len(),
                placements@ == self@.placements,
                live@ == live_images(self@, i as int),
                stale@ == stale_images(self@, live@, handed@),
            decreases placements@.len() - i,
        {
            let id: u32 = placements[i].image_id;
            if let Some(image) = self.get_image(id) {
                if !has_id(&live, id) {
                    let ghost before = live@;
                    live.push(id);
                    proof {
                        assert(live@.drop_last() =~= before);
                    }
                    if !was_handed_over(handed, id, image.generation) {
                        stale.push(id);
                    }
                }
            }
            i = i + 1;
        }
        (live, stale)
    }
}

fn was_handed_over(handed: &Vec<(u32, u64)>, id: u32, generation: u64) -> (v: bool)
    ensures
        v == (exists|i: int| 0 <= i < handed@.len() && #[trigger] handed@[i] == (id, generation)),
{
    let mut i: usize = 0;
    while i < handed.len()
        invariant
            i <= handed@.len(),
            forall|k: int| 0 <= k < i ==> #[trigger] handed@[k] != (id, generation),
        decreases handed@.len() - i,
    {
        let (other, other_generation) = handed[i];
        if other == id && other_generation == generation {
            proof {
                assert(handed@[i as int] == (id, generation));
            }
            return true;
        }
        i = i + 1;
    }
    false
}

/// However many placements show an image, it is handed over once.
pub proof fn images_are_handed_over_once(m: KittyModel, n: int)
    requires
        0 <= n <= m.placements.len(),
    ensures
        live_images(m, n).no_duplicates(),
        forall|id: u32|
            #[trigger] live_images(m, n).contains(id) ==> m.store.images.dom().contains(id),
    decreases n,
{
    if n > 0 {
        images_are_handed_over_once(m, n - 1);
        let before = live_images(m, n - 1);
        let all = live_images(m, n);
        let id = m.placements[n - 1].image_id;
        if m.store.images.dom().contains(id) && !before.contains(id) {
            assert forall|a: int, b: int| 0 <= a < all.len() && 0 <= b < all.len() && a
                != b implies all[a] != all[b] by {
                if a < before.len() {
                    assert(before.contains(before[a]));
                }
                if b < before.len() {
                    assert(before.contains(before[b]));
                }
            }
            assert forall|x: u32| #[trigger] all.contains(x) implies m.store.images.dom().contains(
                x,
            ) by {
                let k = choose|k: int| 0 <= k < all.len() && all[k] == x;
                if k < before.len() {
                    assert(before.contains(before[k]));
                }
            }
        }
    }
}

} // verus!
