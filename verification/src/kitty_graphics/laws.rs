//! What holds of the images whatever commands come.

use super::model::{
    memory_of, valid_dimensions, with_alpha, without_id, without_image, ImageModel, KittyModel,
};
use super::params::ParamsModel;
use super::{
    ImageFormat, KittyPlacement, PlacementRequest, MAX_KITTY_CACHE_BYTES, MAX_KITTY_TRANSFER_BYTES,
};
use vstd::prelude::*;

verus! {

proof fn lemma_without_id(order: Seq<u32>, id: u32)
    requires
        order.no_duplicates(),
    ensures
        !without_id(order, id).contains(id),
        without_id(order, id).no_duplicates(),
        forall|x: u32| x != id ==> (#[trigger] without_id(order, id).contains(x) <==> order.contains(x)),
    decreases order.len(),
{
    if order.len() > 0 {
        let rest = order.drop_last();
        lemma_without_id(rest, id);
        let sub = without_id(rest, id);
        let all = without_id(order, id);
        let last = order.last();
        assert(!rest.contains(last)) by {
            if rest.contains(last) {
                let k = choose|k: int| 0 <= k < rest.len() && rest[k] == last;
                assert(order[k] == order[order.len() - 1]);
            }
        }
        assert forall|x: u32| x != id implies (#[trigger] all.contains(x) <==> order.contains(
            x,
        )) by {
            assert(sub.contains(x) <==> rest.contains(x));
            if order.contains(x) {
                let k = choose|k: int| 0 <= k < order.len() && order[k] == x;
                if k < rest.len() {
                    assert(rest[k] == x);
                    assert(sub.contains(x));
                    let j = choose|j: int| 0 <= j < sub.len() && sub[j] == x;
                    assert(all[j] == x);
                } else {
                    assert(all[sub.len() as int] == x);
                }
            }
            if all.contains(x) {
                let k = choose|k: int| 0 <= k < all.len() && all[k] == x;
                if k < sub.len() {
                    assert(sub[k] == x);
                    assert(rest.contains(x));
                    let j = choose|j: int| 0 <= j < rest.len() && rest[j] == x;
                    assert(order[j] == x);
                } else {
                    assert(order[order.len() - 1] == x);
                }
            }
        }
        if last != id {
            assert(all =~= sub.push(last));
            assert(!sub.contains(last));
            assert forall|a: int, b: int| 0 <= a < all.len() && 0 <= b < all.len() && a
                != b implies all[a] != all[b] by {
                if a < sub.len() && b < sub.len() {
                    assert(sub[a] != sub[b]);
                } else if a < sub.len() {
                    assert(sub.contains(sub[a]));
                } else {
                    assert(sub.contains(sub[b]));
                }
            }
            if all.contains(id) {
                let k = choose|k: int| 0 <= k < all.len() && all[k] == id;
                assert(sub[k] == id);
                assert(sub.contains(id));
            }
        }
    }
}

/// The newest image stays when the oldest are dropped.
proof fn lemma_newest_stays(m: KittyModel)
    requires
        m.store.order.len() > 0,
        m.store.order.no_duplicates(),
        m.store.images.dom().contains(m.store.order.last()),
        m.store.images[m.store.order.last()].data.len() <= MAX_KITTY_CACHE_BYTES,
    ensures
        m.trimmed().store.images.dom().contains(m.store.order.last()),
        m.trimmed().store.images[m.store.order.last()] == m.store.images[m.store.order.last()],
    decreases m.store.order.len(),
{
    let order = m.store.order;
    if !m.store.within_limits() {
        if order.len() == 1 {
            assert(memory_of(order.drop_last(), m.store.images) == 0);
        } else {
            let next = m.without_oldest();
            assert(order[0] != order[order.len() - 1]);
            assert(next.store.order =~= order.drop_first());
            assert(next.store.order.last() == order.last());
            assert forall|a: int, b: int| 0 <= a < next.store.order.len() && 0 <= b
                < next.store.order.len() && a != b implies next.store.order[a]
                != next.store.order[b] by {
                assert(order[a + 1] != order[b + 1]);
            }
            lemma_newest_stays(next);
        }
    }
}

proof fn lemma_stored(
    m: KittyModel,
    id: u32,
    format: ImageFormat,
    pixels: Seq<u8>,
    width: u32,
    height: u32,
)
    requires
        m.wf(),
        pixels.len() <= MAX_KITTY_CACHE_BYTES,
    ensures
        m.stored(id, format, pixels, width, height).store.images.dom().contains(id),
        ({
            let image = m.stored(id, format, pixels, width, height).store.images[id];
            &&& image.data == pixels
            &&& image.width == width
            &&& image.height == height
            &&& image.format == format
            &&& image.generation == m.next_generation
        }),
{
    reveal(KittyModel::stored);
    let image = ImageModel { generation: m.next_generation, format, width, height, data: pixels };
    let store = m.store.stored(id, image);
    lemma_without_id(m.store.order, id);
    let rest = without_id(m.store.order, id);
    assert(store.order =~= rest.push(id));
    assert(store.order.no_duplicates()) by {
        assert forall|a: int, b: int| 0 <= a < store.order.len() && 0 <= b < store.order.len() && a
            != b implies store.order[a] != store.order[b] by {
            if a < rest.len() {
                assert(rest.contains(rest[a]));
            }
            if b < rest.len() {
                assert(rest.contains(rest[b]));
            }
        }
    }
    let next = m.next_generation.wrapping_add(1);
    lemma_newest_stays(
        KittyModel {
            store,
            next_generation: if next == 0 {
                1
            } else {
                next
            },
            total_decoded: m.total_decoded.wrapping_add(1),
            total_bytes_processed: m.total_bytes_processed.wrapping_add(pixels.len() as u64),
            ..m
        },
    );
}

/// An image sent as RGBA is kept as it was sent: it is accepted, and its pixels and its
/// size are read back.
pub proof fn a_sent_image_is_read_back(
    m: KittyModel,
    id: u32,
    data: Seq<u8>,
    width: u32,
    height: u32,
)
    requires
        m.wf(),
        valid_dimensions(width, height),
        data.len() == width * height * 4,
    ensures
        ({
            let (after, result) = m.completed(
                id,
                ImageFormat::Rgba,
                data,
                Some(width),
                Some(height),
                None,
            );
            &&& result is Ok
            &&& after.store.images.dom().contains(id)
            &&& after.store.images[id].data == data
            &&& after.store.images[id].width == width
            &&& after.store.images[id].height == height
        }),
{
    reveal(KittyModel::completed);
    assert(data.len() <= MAX_KITTY_CACHE_BYTES);
    lemma_stored(m, id, ImageFormat::Rgba, data, width, height);
}

/// A pixel sent as RGB is kept with its colors, and opaque.
pub proof fn rgb_pixels_become_opaque(rgb: Seq<u8>, p: int)
    requires
        rgb.len() % 3 == 0,
        0 <= p < rgb.len() / 3,
    ensures
        with_alpha(rgb).len() == rgb.len() / 3 * 4,
        with_alpha(rgb)[4 * p] == rgb[3 * p],
        with_alpha(rgb)[4 * p + 1] == rgb[3 * p + 1],
        with_alpha(rgb)[4 * p + 2] == rgb[3 * p + 2],
        with_alpha(rgb)[4 * p + 3] == 255,
    decreases rgb.len(),
{
    let rest = rgb.subrange(3, rgb.len() as int);
    let head = seq![rgb[0], rgb[1], rgb[2], 255u8];
    assert(with_alpha(rgb) == head + with_alpha(rest));
    if rest.len() == 0 {
        assert(with_alpha(rest).len() == 0);
    } else {
        rgb_pixels_become_opaque(rest, 0);
    }
    if p > 0 {
        rgb_pixels_become_opaque(rest, p - 1);
        assert(with_alpha(rgb)[4 * p] == with_alpha(rest)[4 * (p - 1)]);
        assert(with_alpha(rgb)[4 * p + 1] == with_alpha(rest)[4 * (p - 1) + 1]);
        assert(with_alpha(rgb)[4 * p + 2] == with_alpha(rest)[4 * (p - 1) + 2]);
        assert(with_alpha(rgb)[4 * p + 3] == with_alpha(rest)[4 * (p - 1) + 3]);
    }
}

proof fn lemma_without_image(placements: Seq<KittyPlacement>, id: u32)
    ensures
        forall|i: int|
            0 <= i < without_image(placements, id).len() ==> (#[trigger] without_image(
                placements,
                id,
            )[i]).image_id != id,
    decreases placements.len(),
{
    if placements.len() > 0 {
        lemma_without_image(placements.drop_last(), id);
    }
}

/// A deleted image is gone, and nothing shows it any more; the other images stay.
pub proof fn a_deleted_image_is_gone(m: KittyModel, params: ParamsModel, id: u32)
    requires
        m.wf(),
        params.image_id == Some(id),
    ensures
        m.deleted(params).1 is Ok,
        !m.deleted(params).0.store.images.dom().contains(id),
        forall|i: int|
            0 <= i < m.deleted(params).0.placements.len() ==> (#[trigger] m.deleted(
                params,
            ).0.placements[i]).image_id != id,
        forall|other: u32|
            other != id && #[trigger] m.store.images.dom().contains(other) ==> m.deleted(
                params,
            ).0.store.images.dom().contains(other) && m.deleted(params).0.store.images[other]
                == m.store.images[other],
{
    reveal(KittyModel::deleted);
    lemma_without_image(m.placements, id);
}

/// An image sent in two chunks is the image sent at once.
pub proof fn chunks_add_up(
    m: KittyModel,
    id: u32,
    format: ImageFormat,
    first: Seq<u8>,
    second: Seq<u8>,
    width: Option<u32>,
    height: Option<u32>,
    placement: Option<PlacementRequest>,
)
    requires
        m.pending is None,
        first.len() + second.len() <= MAX_KITTY_TRANSFER_BYTES,
    ensures
        m.continued(id, format, first, width, height, placement).1 is Ok,
        m.continued(id, format, first, width, height, placement).0.finished(
            id,
            format,
            second,
            None,
            None,
            None,
        ) == m.finished(id, format, first + second, width, height, placement),
{
    reveal(KittyModel::continued);
    reveal(KittyModel::finished);
    let waiting = m.continued(id, format, first, width, height, placement).0;
    assert(waiting.expired() == m);
}

} // verus!
