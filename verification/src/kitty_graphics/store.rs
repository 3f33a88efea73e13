//! The images and the order in which they came.

use super::model::{memory_of, without_id, ImageModel, StoreModel};
use super::KittyImage;
use std::collections::{HashMap, VecDeque};
use vstd::prelude::*;

verus! {

/// The images by their id, the order in which they came, and the bytes they take.
pub struct ImageStore {
    pub images: HashMap<u32, KittyImage>,
    pub access_order: VecDeque<u32>,
    pub total_image_memory: u64,
}

impl View for ImageStore {
    type V = StoreModel;

    open spec fn view(&self) -> StoreModel {
        StoreModel {
            images: self.images@.map_values(|image: KittyImage| image@),
            order: self.access_order@,
        }
    }
}

/// The images outside the order do not count.
proof fn lemma_memory_frame(order: Seq<u32>, a: Map<u32, ImageModel>, b: Map<u32, ImageModel>)
    requires
        forall|id: u32| order.contains(id) ==> a[id] == b[id],
    ensures
        memory_of(order, a) == memory_of(order, b),
    decreases order.len(),
{
    if order.len() > 0 {
        let rest = order.drop_last();
        assert forall|id: u32| rest.contains(id) implies a[id] == b[id] by {
            let i = choose|i: int| 0 <= i < rest.len() && rest[i] == id;
            assert(order[i] == id);
        }
        assert(order[order.len() - 1] == order.last());
        lemma_memory_frame(rest, a, b);
    }
}

/// Memory counted from the front.
proof fn lemma_memory_first(order: Seq<u32>, images: Map<u32, ImageModel>)
    requires
        order.len() > 0,
    ensures
        memory_of(order, images) == images[order[0]].data.len() + memory_of(
            order.drop_first(),
            images,
        ),
    decreases order.len(),
{
    if order.len() == 1 {
        assert(memory_of(order.drop_last(), images) == 0);
        assert(memory_of(order.drop_first(), images) == 0);
    } else {
        lemma_memory_first(order.drop_last(), images);
        assert(order.drop_first().drop_last() =~= order.drop_last().drop_first());
        assert(order.drop_first().last() == order.last());
        assert(memory_of(order.drop_first(), images) == memory_of(
            order.drop_first().drop_last(),
            images,
        ) + images[order.last()].data.len());
    }
}

/// What filtering one id out of an order does.
proof fn lemma_filtered(order: Seq<u32>, id: u32, images: Map<u32, ImageModel>)
    requires
        order.no_duplicates(),
    ensures
        ({
            let rest = without_id(order, id);
            &&& rest.no_duplicates()
            &&& rest.len() <= order.len()
            &&& forall|x: u32| rest.contains(x) <==> #[trigger] order.contains(x) && x != id
            &&& memory_of(rest, images) == memory_of(order, images) - (if order.contains(id) {
                images[id].data.len() as int
            } else {
                0
            })
            &&& !order.contains(id) ==> rest == order
        }),
    decreases order.len(),
{
    let rest = without_id(order, id);
    if order.len() > 0 {
        let init = order.drop_last();
        let last = order.last();
        assert(order[order.len() - 1] == last);
        assert(init.no_duplicates());
        lemma_filtered(init, id, images);
        let sub = without_id(init, id);
        assert(forall|x: u32| order.contains(x) <==> init.contains(x) || x == last) by {
            assert forall|x: u32| order.contains(x) implies init.contains(x) || x == last by {
                let i = choose|i: int| 0 <= i < order.len() && order[i] == x;
                if i < init.len() {
                    assert(init[i] == x);
                }
            }
            assert forall|x: u32| init.contains(x) implies order.contains(x) by {
                let i = choose|i: int| 0 <= i < init.len() && init[i] == x;
                assert(order[i] == x);
            }
        }
        assert(!init.contains(last));
        if last != id {
            assert(rest == sub.push(last));
            assert(rest.drop_last() =~= sub);
            assert(!sub.contains(last));
            assert(forall|x: u32| rest.contains(x) <==> sub.contains(x) || x == last) by {
                assert forall|x: u32| sub.contains(x) implies rest.contains(x) by {
                    let i = choose|i: int| 0 <= i < sub.len() && sub[i] == x;
                    assert(rest[i] == x);
                }
                assert(rest[rest.len() - 1] == last);
            }
            assert(rest.no_duplicates());
            if !order.contains(id) {
                assert(sub == init);
                assert(rest =~= order);
            }
        } else {
            assert(rest == sub);
        }
    }
}

/// An order as long as there are images.
proof fn lemma_order_length(store: StoreModel)
    requires
        store.wf(),
    ensures
        store.images.dom().finite(),
        store.images.dom().len() == store.order.len(),
{
    store.order.unique_seq_to_set();
    assert(store.order.to_set() =~= store.images.dom());
}

impl ImageStore {
    /// What holds of every store: the order fits the images and the count of bytes is right.
    pub open spec fn wf(&self) -> bool {
        &&& self@.wf()
        &&& self.total_image_memory == self@.memory()
    }

    pub(crate) fn new() -> (store: Self)
        ensures
            store.wf(),
            store@ == StoreModel::empty(),
    {
        let store = ImageStore {
            images: HashMap::new(),
            access_order: VecDeque::new(),
            total_image_memory: 0,
        };
        proof {
            assert(store@.images =~= Map::empty());
            assert(store@.order =~= Seq::empty());
        }
        store
    }

    pub(crate) fn len(&self) -> (n: usize)
        requires
            self.wf(),
        ensures
            n == self@.order.len(),
    {
        proof {
            broadcast use vstd::std_specs::hash::group_hash_axioms;

            lemma_order_length(self@);
            assert(self.images@.dom() =~= self@.images.dom());
        }
        self.images.len()
    }

    pub(crate) fn get(&self, id: u32) -> (image: Option<&KittyImage>)
        ensures
            image is Some <==> self@.images.dom().contains(id),
            image matches Some(i) ==> i@ == self@.images[id],
    {
        broadcast use vstd::std_specs::hash::group_hash_axioms;

        self.images.get(&id)
    }

    /// The order without one id.
    fn order_without(&self, id: u32) -> (rest: VecDeque<u32>)
        ensures
            rest@ == without_id(self@.order, id),
    {
        let mut rest: VecDeque<u32> = VecDeque::new();
        let mut i: usize = 0;
        proof {
            assert(self.access_order@.subrange(0, 0) =~= Seq::empty());
        }
        while i < self.access_order.len()
            invariant
                i <= self.access_order@.len(),
                rest@ == without_id(self.access_order@.subrange(0, i as int), id),
            decreases self.access_order@.len() - i,
        {
            proof {
                let next = self.access_order@.subrange(0, i + 1);
                assert(next.drop_last() =~= self.access_order@.subrange(0, i as int));
            }
            let other: u32 = self.access_order[i];
            if other != id {
                rest.push_back(other);
            }
            i = i + 1;
        }
        proof {
            assert(self.access_order@.subrange(0, i as int) =~= self.access_order@);
        }
        rest
    }

    /// Takes an image out, if it is there.
    pub(crate) fn remove(&mut self, id: u32)
        requires
            old(self).wf(),
        ensures
            final(self).wf(),
            final(self)@ == old(self)@.removed(id),
            final(self)@.order.len() <= old(self)@.order.len(),
            final(self)@.memory() <= old(self)@.memory(),
    {
        broadcast use vstd::std_specs::hash::group_hash_axioms;

        let ghost before = self@;
        proof {
            assert(before.order.contains(id) <==> before.images.dom().contains(id));
            assert(self.images@.dom().contains(id) ==> before.images[id] == self.images@[id]@);
            lemma_filtered(before.order, id, before.images);
            lemma_memory_frame(
                before.removed(id).order,
                before.images,
                before.removed(id).images,
            );
        }
        let order = self.order_without(id);
        if let Some(image) = self.images.remove(&id) {
            self.total_image_memory = self.total_image_memory - image.data.len() as u64;
        }
        self.access_order = order;
        proof {
            let after = before.removed(id);
            assert(self@.images =~= before.images.remove(id));
            assert(self@ =~= after);
            assert forall|x: u32| after.order.contains(x) <==> #[trigger] after.images.dom().contains(
                x,
            ) by {
                assert(before.order.contains(x) <==> before.images.dom().contains(x));
            }
        }
    }

    /// Puts an image in; one with the same id gives way.
    pub(crate) fn store(&mut self, id: u32, image: KittyImage)
        requires
            old(self).wf(),
            old(self)@.memory() + image@.data.len() <= u64::MAX,
        ensures
            final(self).wf(),
            final(self)@ == old(self)@.stored(id, image@),
            final(self)@.memory() <= old(self)@.memory() + image@.data.len(),
    {
        broadcast use vstd::std_specs::hash::group_hash_axioms;

        let ghost before = self@;
        proof {
            lemma_filtered(before.order, id, before.images);
        }
        self.remove(id);
        let ghost middle = self@;
        let size: u64 = image.data.len() as u64;
        proof {
            lemma_memory_frame(middle.order, before.images, middle.images);
            let after = before.stored(id, image@);
            assert(after.order.drop_last() =~= middle.order);
            lemma_memory_frame(middle.order, middle.images, after.images);
            assert(middle.images.insert(id, image@)[id] == image@);
        }
        self.total_image_memory = self.total_image_memory + size;
        self.access_order.push_back(id);
        self.images.insert(id, image);
        proof {
            let after = before.stored(id, image@);
            assert(self@.images =~= after.images);
            assert(self@ =~= after);
            assert forall|x: u32| after.order.contains(x) <==> #[trigger] after.images.dom().contains(
                x,
            ) by {
                assert(middle.order.contains(x) <==> middle.images.dom().contains(x));
                if after.order.contains(x) {
                    let i = choose|i: int| 0 <= i < after.order.len() && after.order[i] == x;
                    if i < middle.order.len() {
                        assert(middle.order[i] == x);
                    }
                }
                if middle.order.contains(x) {
                    let i = choose|i: int| 0 <= i < middle.order.len() && middle.order[i] == x;
                    assert(after.order[i] == x);
                }
                assert(after.order[after.order.len() - 1] == id);
            }
            assert(after.order.no_duplicates());
        }
    }

    /// Drops the oldest image.
    pub(crate) fn drop_oldest(&mut self) -> (id: u32)
        requires
            old(self).wf(),
            old(self)@.order.len() > 0,
        ensures
            final(self).wf(),
            id == old(self)@.order[0],
            final(self)@ == old(self)@.without_oldest(),
    {
        broadcast use vstd::std_specs::hash::group_hash_axioms;

        let ghost before = self@;
        let id: u32 = self.access_order[0];
        proof {
            assert(before.order.contains(id)) by {
                assert(before.order[0] == id);
            }
            assert(before.images.dom().contains(id));
            lemma_memory_first(before.order, before.images);
            let rest = before.order.drop_first();
            assert forall|x: u32| rest.contains(x) implies x != id by {
                let i = choose|i: int| 0 <= i < rest.len() && rest[i] == x;
                assert(before.order[i + 1] == x);
            }
            lemma_memory_frame(rest, before.images, before.without_oldest().images);
        }
        self.access_order.pop_front();
        if let Some(image) = self.images.remove(&id) {
            self.total_image_memory = self.total_image_memory - image.data.len() as u64;
        }
        proof {
            let after = before.without_oldest();
            assert(self@.images =~= after.images);
            assert(self@ =~= after);
            assert(after.order.no_duplicates());
            assert forall|x: u32| after.order.contains(x) <==> #[trigger] after.images.dom().contains(
                x,
            ) by {
                if before.order.contains(x) && x != id {
                    let i = choose|i: int| 0 <= i < before.order.len() && before.order[i] == x;
                    assert(after.order[i - 1] == x);
                }
                if after.order.contains(x) {
                    let i = choose|i: int| 0 <= i < after.order.len() && after.order[i] == x;
                    assert(before.order[i + 1] == x);
                }
                assert(before.order.contains(x) <==> before.images.dom().contains(x));
            }
        }
        id
    }

    pub(crate) fn clear(&mut self)
        ensures
            final(self).wf(),
            final(self)@ == StoreModel::empty(),
    {
        self.images.clear();
        self.access_order.clear();
        self.total_image_memory = 0;
        proof {
            assert(self@.images =~= Map::empty());
            assert(self@.order =~= Seq::empty());
        }
    }
}

} // verus!
