//! What the graphics state is and what each command does to it.

use super::params::{named_format, ParamsModel};
use super::{
    ImageFormat, KittyPlacement, PlacementRequest, MAX_KITTY_CACHE_BYTES, MAX_KITTY_DIMENSION,
    MAX_KITTY_IMAGES, MAX_KITTY_PIXELS, MAX_KITTY_PLACEMENTS, MAX_KITTY_TRANSFER_BYTES,
};
use crate::outside::{base64_decoding, decoded_image};
use crate::text::decimal_text;
use vstd::prelude::*;
use vstd::utf8::encode_utf8;

verus! {

/// An image: its pixels are RGBA, four bytes each.
pub struct ImageModel {
    pub generation: u64,
    pub format: ImageFormat,
    pub width: u32,
    pub height: u32,
    pub data: Seq<u8>,
}

/// The images by their id, and the ids from the oldest to the newest.
#[verifier::ext_equal]
pub struct StoreModel {
    pub images: Map<u32, ImageModel>,
    pub order: Seq<u32>,
}

/// The bytes that the given images take.
pub open spec fn memory_of(order: Seq<u32>, images: Map<u32, ImageModel>) -> nat
    decreases order.len(),
{
    if order.len() == 0 {
        0
    } else {
        memory_of(order.drop_last(), images) + images[order.last()].data.len()
    }
}

/// The ids but for one.
pub open spec fn without_id(order: Seq<u32>, id: u32) -> Seq<u32>
    decreases order.len(),
{
    if order.len() == 0 {
        order
    } else {
        let rest = without_id(order.drop_last(), id);
        if order.last() != id {
            rest.push(order.last())
        } else {
            rest
        }
    }
}

impl StoreModel {
    pub open spec fn empty() -> Self {
        StoreModel { images: Map::empty(), order: Seq::empty() }
    }

    /// Every image has its place in the order, once.
    pub open spec fn wf(self) -> bool {
        &&& self.order.no_duplicates()
        &&& forall|id: u32| self.order.contains(id) <==> #[trigger] self.images.dom().contains(id)
    }

    pub open spec fn memory(self) -> nat {
        memory_of(self.order, self.images)
    }

    pub open spec fn within_limits(self) -> bool {
        self.order.len() <= MAX_KITTY_IMAGES && self.memory() <= MAX_KITTY_CACHE_BYTES
    }

    pub open spec fn removed(self, id: u32) -> Self {
        StoreModel {
            images: self.images.remove(id),
            order: without_id(self.order, id),
        }
    }

    /// An image put in; one with the same id gives way.
    pub open spec fn stored(self, id: u32, image: ImageModel) -> Self {
        let rest = self.removed(id);
        StoreModel { images: rest.images.insert(id, image), order: rest.order.push(id) }
    }

    pub open spec fn without_oldest(self) -> Self {
        StoreModel {
            images: self.images.remove(self.order[0]),
            order: self.order.drop_first(),
        }
    }
}

/// A transfer in several chunks that is not complete yet.
pub struct PendingModel {
    pub image_id: u32,
    pub format: ImageFormat,
    pub data: Seq<u8>,
    pub width: Option<u32>,
    pub height: Option<u32>,
    pub auto_placement: Option<PlacementRequest>,
}

/// The graphics state.
pub struct KittyModel {
    pub store: StoreModel,
    pub placements: Seq<KittyPlacement>,
    pub pending: Option<PendingModel>,
    pub next_placement_id: u32,
    pub next_generation: u64,
    pub total_decoded: u32,
    pub total_bytes_processed: u64,
}

/// A placement put behind all others that are not above it.
pub open spec fn inserted_by_z(placements: Seq<KittyPlacement>, p: KittyPlacement) -> Seq<
    KittyPlacement,
>
    decreases placements.len(),
{
    if placements.len() == 0 || placements.last().z_index <= p.z_index {
        placements.push(p)
    } else {
        inserted_by_z(placements.drop_last(), p).push(placements.last())
    }
}

/// Placements in stacking order; those on one level keep their order.
pub open spec fn sorted_by_z(placements: Seq<KittyPlacement>) -> Seq<KittyPlacement>
    decreases placements.len(),
{
    if placements.len() == 0 {
        placements
    } else {
        inserted_by_z(sorted_by_z(placements.drop_last()), placements.last())
    }
}

/// The placements but for those of one image.
pub open spec fn without_image(placements: Seq<KittyPlacement>, image_id: u32) -> Seq<
    KittyPlacement,
>
    decreases placements.len(),
{
    if placements.len() == 0 {
        placements
    } else {
        let rest = without_image(placements.drop_last(), image_id);
        if placements.last().image_id != image_id {
            rest.push(placements.last())
        } else {
            rest
        }
    }
}

/// The placements but for those with one id.
pub open spec fn without_placement(placements: Seq<KittyPlacement>, placement_id: u32) -> Seq<
    KittyPlacement,
>
    decreases placements.len(),
{
    if placements.len() == 0 {
        placements
    } else {
        let rest = without_placement(placements.drop_last(), placement_id);
        if placements.last().placement_id != Some(placement_id) {
            rest.push(placements.last())
        } else {
            rest
        }
    }
}

/// Whether placements are in stacking order.
pub open spec fn in_z_order(placements: Seq<KittyPlacement>) -> bool {
    forall|i: int, j: int|
        0 <= i <= j < placements.len() ==> placements[i].z_index <= placements[j].z_index
}

/// The last `MAX_KITTY_PLACEMENTS` of some placements.
pub open spec fn newest_placements(placements: Seq<KittyPlacement>) -> Seq<KittyPlacement> {
    if placements.len() > MAX_KITTY_PLACEMENTS {
        placements.subrange(
            placements.len() - MAX_KITTY_PLACEMENTS,
            placements.len() as int,
        )
    } else {
        placements
    }
}

pub open spec fn valid_dimensions(width: u32, height: u32) -> bool {
    &&& 0 < width <= MAX_KITTY_DIMENSION
    &&& 0 < height <= MAX_KITTY_DIMENSION
    &&& width * height <= MAX_KITTY_PIXELS
}

pub open spec fn dimensions_error(width: u32, height: u32) -> Seq<char> {
    "Image dimensions exceed limit: "@ + decimal_text(width as nat) + "x"@ + decimal_text(
        height as nat,
    )
}

/// RGB pixels with an opaque alpha added to each.
pub open spec fn with_alpha(rgb: Seq<u8>) -> Seq<u8>
    decreases rgb.len(),
{
    if rgb.len() < 3 {
        Seq::empty()
    } else {
        seq![rgb[0], rgb[1], rgb[2], 255u8] + with_alpha(rgb.subrange(3, rgb.len() as int))
    }
}

/// A compressed image as pixels: what the decoder makes of it, if its size is accepted.
pub open spec fn decoded_pixels(data: Seq<u8>) -> Result<(Seq<u8>, u32, u32), Seq<char>> {
    if data.len() > MAX_KITTY_TRANSFER_BYTES {
        Err("Compressed image exceeds per-image limit"@)
    } else {
        checked_pixels(
            decoded_image(data, MAX_KITTY_DIMENSION, MAX_KITTY_TRANSFER_BYTES as u64),
        )
    }
}

/// What is made of the decoder's outcome.
pub open spec fn checked_pixels(
    decoded: Result<(Seq<u8>, u32, u32), (bool, Seq<char>)>,
) -> Result<(Seq<u8>, u32, u32), Seq<char>> {
    match decoded {
        Ok((pixels, width, height)) => if valid_dimensions(width, height) {
            Ok((pixels, width, height))
        } else {
            Err(dimensions_error(width, height))
        },
        Err((recognised, text)) => if recognised {
            Err("Failed to load image: "@ + text)
        } else {
            Err("Failed to detect image format: "@ + text)
        },
    }
}

/// Raw image data as pixels: its size must be given and must match its length.
pub open spec fn raw_pixels(
    data: Seq<u8>,
    has_alpha: bool,
    width: Option<u32>,
    height: Option<u32>,
) -> Result<(Seq<u8>, u32, u32), Seq<char>> {
    match (width, height) {
        (None, _) => Err("Missing width for raw image format"@),
        (Some(_), None) => Err("Missing height for raw image format"@),
        (Some(w), Some(h)) => if !valid_dimensions(w, h) {
            Err(dimensions_error(w, h))
        } else {
            let channels: int = if has_alpha {
                4
            } else {
                3
            };
            if data.len() != w * h * channels {
                Err(
                    "Raw image length mismatch: expected "@ + decimal_text(
                        (w * h * channels) as nat,
                    ) + ", got "@ + decimal_text(data.len()),
                )
            } else if has_alpha {
                Ok((data, w, h))
            } else {
                Ok((with_alpha(data), w, h))
            }
        },
    }
}

pub open spec fn pixels_of(
    data: Seq<u8>,
    format: ImageFormat,
    width: Option<u32>,
    height: Option<u32>,
) -> Result<(Seq<u8>, u32, u32), Seq<char>> {
    match format {
        ImageFormat::Rgb => raw_pixels(data, false, width, height),
        ImageFormat::Rgba => raw_pixels(data, true, width, height),
        _ => decoded_pixels(data),
    }
}

/// What a command that asks for a placement says about it.
pub open spec fn placement_of(params: ParamsModel) -> PlacementRequest {
    PlacementRequest {
        placement_id: params.placement_id,
        x: params.x.unwrap_or(0),
        y: params.y.unwrap_or(0),
        width: params.columns.unwrap_or(1),
        height: params.rows.unwrap_or(1),
        z: params.z.unwrap_or(0),
    }
}

/// The base64 text of one chunk decoded, if it is not too long.
pub open spec fn chunk_of(encoded: Option<Seq<char>>) -> Result<Seq<u8>, Seq<char>> {
    match encoded {
        None => Err("No image data provided"@),
        Some(text) => if encode_utf8(text).len() > MAX_KITTY_TRANSFER_BYTES * 4 / 3 + 4 {
            Err("Kitty image transfer exceeds per-image limit"@)
        } else {
            match base64_decoding(text) {
                Ok(data) => Ok(data),
                Err(e) => Err("Base64 decode error: "@ + e),
            }
        },
    }
}

/// The format of a chunk: the one given, the one of the pending transfer, or PNG.
pub open spec fn format_of(format: Option<Seq<char>>, pending: Option<PendingModel>) -> Result<
    ImageFormat,
    Seq<char>,
> {
    match format {
        Some(name) => match named_format(name) {
            Some(f) => Ok(f),
            None => Err("Unknown format: "@ + name),
        },
        None => match pending {
            Some(p) => Ok(p.format),
            None => Ok(ImageFormat::Png),
        },
    }
}

/// The image of a chunk: the one given, or the one of the pending transfer.
pub open spec fn target_of(image_id: Option<u32>, pending: Option<PendingModel>) -> Option<u32> {
    match image_id {
        Some(id) => Some(id),
        None => match pending {
            Some(p) => Some(p.image_id),
            None => None,
        },
    }
}

/// A pending transfer that a chunk can be added to.
pub open spec fn continues(
    pending: PendingModel,
    image_id: u32,
    format: ImageFormat,
    data: Seq<u8>,
) -> Result<(), Seq<char>> {
    if pending.image_id != image_id || pending.format != format {
        Err("Kitty continuation does not match pending transfer"@)
    } else if pending.data.len() + data.len() > MAX_KITTY_TRANSFER_BYTES {
        Err("Kitty image transfer exceeds per-image limit"@)
    } else {
        Ok(())
    }
}

pub open spec fn first_of<T>(a: Option<T>, b: Option<T>) -> Option<T> {
    match a {
        Some(v) => Some(v),
        None => b,
    }
}

impl KittyModel {
    pub open spec fn initial() -> Self {
        KittyModel {
            store: StoreModel::empty(),
            placements: Seq::empty(),
            pending: None,
            next_placement_id: 1,
            next_generation: 1,
            total_decoded: 0,
            total_bytes_processed: 0,
        }
    }

    /// What holds of every graphics state: the limits are kept and the placements
    /// are in stacking order.
    pub open spec fn wf(self) -> bool {
        &&& self.store.wf()
        &&& self.store.within_limits()
        &&& self.placements.len() <= MAX_KITTY_PLACEMENTS
        &&& in_z_order(self.placements)
    }

    /// The pending transfer given up.
    pub open spec fn expired(self) -> Self {
        KittyModel { pending: None, ..self }
    }

    /// The oldest image dropped, and what shows it.
    pub open spec fn without_oldest(self) -> Self {
        let id = self.store.order[0];
        KittyModel {
            store: self.store.without_oldest(),
            placements: without_image(self.placements, id),
            ..self
        }
    }

    /// The oldest images dropped until the limits are kept.
    pub open spec fn trimmed(self) -> Self
        decreases self.store.order.len(),
    {
        if self.store.order.len() == 0 || self.store.within_limits() {
            self
        } else {
            self.without_oldest().trimmed()
        }
    }

    /// A placement added on its level, under a fresh id where none is given. The
    /// lowest of too many gives way.
    #[verifier::opaque]
    pub open spec fn placed(self, image_id: u32, request: PlacementRequest) -> Self {
        let id = match request.placement_id {
            Some(id) => id,
            None => self.next_placement_id,
        };
        let placement = KittyPlacement {
            image_id,
            placement_id: Some(id),
            x: request.x,
            y: request.y,
            width: request.width,
            height: request.height,
            z_index: request.z,
        };
        KittyModel {
            placements: sorted_by_z(newest_placements(self.placements.push(placement))),
            next_placement_id: match request.placement_id {
                Some(_) => self.next_placement_id,
                None => self.next_placement_id.wrapping_add(1),
            },
            ..self
        }
    }

    /// An image kept under an id, in place of an earlier one.
    #[verifier::opaque]
    pub open spec fn stored(
        self,
        image_id: u32,
        format: ImageFormat,
        pixels: Seq<u8>,
        width: u32,
        height: u32,
    ) -> Self {
        let image = ImageModel {
            generation: self.next_generation,
            format,
            width,
            height,
            data: pixels,
        };
        let next = self.next_generation.wrapping_add(1);
        (KittyModel {
            store: self.store.stored(image_id, image),
            next_generation: if next == 0 {
                1
            } else {
                next
            },
            total_decoded: self.total_decoded.wrapping_add(1),
            total_bytes_processed: self.total_bytes_processed.wrapping_add(pixels.len() as u64),
            ..self
        }).trimmed()
    }

    /// A transfer whose data is complete.
    #[verifier::opaque]
    pub open spec fn completed(
        self,
        image_id: u32,
        format: ImageFormat,
        data: Seq<u8>,
        width: Option<u32>,
        height: Option<u32>,
        placement: Option<PlacementRequest>,
    ) -> (Self, Result<(), Seq<char>>) {
        match pixels_of(data, format, width, height) {
            Err(e) => (self, Err(e)),
            Ok((pixels, w, h)) => {
                let stored = self.stored(image_id, format, pixels, w, h);
                (
                    match placement {
                        Some(request) => stored.placed(image_id, request),
                        None => stored,
                    },
                    Ok(()),
                )
            },
        }
    }

    /// A chunk that more chunks follow.
    #[verifier::opaque]
    pub open spec fn continued(
        self,
        image_id: u32,
        format: ImageFormat,
        data: Seq<u8>,
        width: Option<u32>,
        height: Option<u32>,
        placement: Option<PlacementRequest>,
    ) -> (Self, Result<(), Seq<char>>) {
        match self.pending {
            Some(pending) => match continues(pending, image_id, format, data) {
                Err(e) => (self.expired(), Err(e)),
                Ok(_) => (
                    KittyModel {
                        pending: Some(
                            PendingModel {
                                data: pending.data + data,
                                auto_placement: first_of(pending.auto_placement, placement),
                                ..pending
                            },
                        ),
                        ..self
                    },
                    Ok(()),
                ),
            },
            None => (
                KittyModel {
                    pending: Some(
                        PendingModel {
                            image_id,
                            format,
                            data,
                            width,
                            height,
                            auto_placement: placement,
                        },
                    ),
                    ..self
                },
                Ok(()),
            ),
        }
    }

    /// The last chunk, or the only one.
    #[verifier::opaque]
    pub open spec fn finished(
        self,
        image_id: u32,
        format: ImageFormat,
        data: Seq<u8>,
        width: Option<u32>,
        height: Option<u32>,
        placement: Option<PlacementRequest>,
    ) -> (Self, Result<(), Seq<char>>) {
        match self.pending {
            Some(pending) => match continues(pending, image_id, format, data) {
                Err(e) => (self.expired(), Err(e)),
                Ok(_) => self.expired().completed(
                    image_id,
                    format,
                    pending.data + data,
                    first_of(width, pending.width),
                    first_of(height, pending.height),
                    first_of(placement, pending.auto_placement),
                ),
            },
            None => self.completed(image_id, format, data, width, height, placement),
        }
    }

    /// A transfer command: `a=t`, `a=T`, or a continuation without `a`. An explicit
    /// one gives up what is pending.
    #[verifier::opaque]
    pub open spec fn transferred(self, params: ParamsModel) -> (Self, Result<(), Seq<char>>) {
        let start = if params.action is Some {
            self.expired()
        } else {
            self
        };
        let placement = if params.action == Some("T"@) {
            Some(placement_of(params))
        } else {
            None
        };
        match (
            target_of(params.image_id, start.pending),
            format_of(params.format, start.pending),
        ) {
            (None, _) => (start, Err("Missing image ID"@)),
            (Some(_), Err(e)) => (start, Err(e)),
            (Some(image_id), Ok(format)) => match chunk_of(params.data) {
                Err(e) => (start.expired(), Err(e)),
                Ok(data) => if params.more {
                    start.continued(
                        image_id,
                        format,
                        data,
                        params.width,
                        params.height,
                        placement,
                    )
                } else {
                    start.finished(image_id, format, data, params.width, params.height, placement)
                },
            },
        }
    }

    /// A placement command, `a=p`.
    pub open spec fn placement_handled(self, params: ParamsModel) -> (Self, Result<(), Seq<char>>) {
        match params.image_id {
            None => (self, Err("Missing image ID"@)),
            Some(image_id) => (
                self.placed(
                    image_id,
                    PlacementRequest {
                        width: first_of(params.columns, params.width).unwrap_or(1),
                        height: first_of(params.rows, params.height).unwrap_or(1),
                        ..placement_of(params)
                    },
                ),
                Ok(()),
            ),
        }
    }

    /// A deletion, `a=d`: an image with all that shows it, or one placement.
    #[verifier::opaque]
    pub open spec fn deleted(self, params: ParamsModel) -> (Self, Result<(), Seq<char>>) {
        match (params.image_id, params.placement_id) {
            (Some(image_id), _) => (
                KittyModel {
                    store: self.store.removed(image_id),
                    placements: without_image(self.placements, image_id),
                    ..self
                },
                Ok(()),
            ),
            (None, Some(placement_id)) => (
                KittyModel {
                    placements: without_placement(self.placements, placement_id),
                    ..self
                },
                Ok(()),
            ),
            (None, None) => (self, Err("Missing image_id or placement_id for delete"@)),
        }
    }

    /// One command.
    #[verifier::opaque]
    pub open spec fn commanded(self, params: ParamsModel) -> (Self, Result<(), Seq<char>>) {
        match params.action {
            Some(action) => if action == "t"@ || action == "T"@ {
                self.transferred(params)
            } else if action == "p"@ {
                self.placement_handled(params)
            } else if action == "d"@ {
                self.deleted(params)
            } else if action == "q"@ {
                (self, Ok(()))
            } else {
                (self, Err("Unknown action"@))
            },
            None => if self.pending is Some {
                self.transferred(params)
            } else {
                (self, Err("Unknown action"@))
            },
        }
    }

    /// One command, from its text.
    pub open spec fn handled(self, payload: Seq<char>) -> (Self, Result<(), Seq<char>>) {
        match ParamsModel::parsed(payload) {
            Ok(params) => self.commanded(params),
            Err(e) => (self, Err(e)),
        }
    }
}

} // verus!
