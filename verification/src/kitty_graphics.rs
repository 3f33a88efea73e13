//! The Kitty graphics protocol.

use vstd::prelude::*;

pub mod commands;
pub mod laws;
pub mod model;
pub mod params;
pub mod render;
pub mod store;

use crate::outside::{base64_decode, decode_image, nanos_since, now};
use crate::text::{
    append_decimal, append_text, chars_of, decimal_text, joined, owned, push_bytes, same_text,
};
use model::{
    checked_pixels, chunk_of, continues, decoded_pixels, dimensions_error, first_of, format_of,
    in_z_order, inserted_by_z, memory_of, newest_placements, pixels_of, placement_of, raw_pixels,
    sorted_by_z, valid_dimensions, with_alpha, without_image, without_placement, ImageModel,
    KittyModel, PendingModel,
};
use params::{outcome, text_of, KittyGraphicsParams, ParamsModel};
use store::ImageStore;

verus! {

pub const MAX_KITTY_IMAGES: usize = 100;

pub const MAX_KITTY_CACHE_BYTES: u64 = 268_435_456;

pub const MAX_KITTY_TRANSFER_BYTES: usize = 67_108_864;

pub const MAX_KITTY_DIMENSION: u32 = 8192;

pub const MAX_KITTY_PIXELS: u64 = 16_777_216;

pub const MAX_KITTY_PLACEMENTS: usize = 1024;

/// How long a transfer may wait for its next chunk, in nanoseconds.
pub const KITTY_PENDING_TIMEOUT_NANOS: u128 = 10_000_000_000;

/// The format of image data.
#[derive(Debug, Clone, Copy, PartialEq, Eq, Structural)]
pub enum ImageFormat {
    Png,
    Jpeg,
    Webp,
    Rgb,
    Rgba,
}

/// An image, decoded to RGBA.
#[derive(Debug, Clone)]
pub struct KittyImage {
    /// Counts up with every transfer, so that a renderer sees that an id has been
    /// given new content of the same size.
    pub generation: u64,
    pub format: ImageFormat,
    pub width: u32,
    pub height: u32,
    pub data: Vec<u8>,
}

impl View for KittyImage {
    type V = ImageModel;

    open spec fn view(&self) -> ImageModel {
        ImageModel {
            generation: self.generation,
            format: self.format,
            width: self.width,
            height: self.height,
            data: self.data@,
        }
    }
}

/// Where an image is shown.
#[derive(Debug, Clone, Copy, PartialEq, Eq, Structural)]
pub struct KittyPlacement {
    pub image_id: u32,
    pub placement_id: Option<u32>,
    pub x: u32,
    pub y: u32,
    pub width: u32,
    pub height: u32,
    pub z_index: i32,
}

/// Where an image is to be shown once it is there.
#[derive(Debug, Clone, Copy, PartialEq, Eq, Structural)]
pub struct PlacementRequest {
    pub placement_id: Option<u32>,
    pub x: u32,
    pub y: u32,
    pub width: u32,
    pub height: u32,
    pub z: i32,
}

/// A transfer in several chunks that is not complete yet.
pub struct PendingTransfer {
    pub image_id: u32,
    pub format: ImageFormat,
    pub chunks: Vec<Vec<u8>>,
    pub bytes: usize,
    pub width: Option<u32>,
    pub height: Option<u32>,
    pub auto_placement: Option<PlacementRequest>,
    pub started_at: std::time::Instant,
}

/// Chunks one behind the other.
pub open spec fn joined_chunks(chunks: Seq<Vec<u8>>) -> Seq<u8>
    decreases chunks.len(),
{
    if chunks.len() == 0 {
        Seq::empty()
    } else {
        joined_chunks(chunks.drop_last()) + chunks.last()@
    }
}

impl View for PendingTransfer {
    type V = PendingModel;

    open spec fn view(&self) -> PendingModel {
        PendingModel {
            image_id: self.image_id,
            format: self.format,
            data: joined_chunks(self.chunks@),
            width: self.width,
            height: self.height,
            auto_placement: self.auto_placement,
        }
    }
}

pub open spec fn pending_view(pending: Option<PendingTransfer>) -> Option<PendingModel> {
    match pending {
        Some(p) => Some(p@),
        None => None,
    }
}

/// A transfer that is pending was so before, since the same moment.
pub open spec fn start_kept(before: Option<PendingTransfer>, after: Option<PendingTransfer>) -> bool {
    after matches Some(p) ==> before matches Some(q) && p.started_at == q.started_at
}

/// Whether a command begins a transfer, and so gives up one that is pending.
pub open spec fn begins_transfer(params: ParamsModel) -> bool {
    params.action matches Some(action) && (action == "t"@ || action == "T"@)
}

/// Whether a text is a command that begins a transfer.
pub open spec fn asks_for_transfer(payload: Seq<char>) -> bool {
    ParamsModel::parsed(payload) matches Ok(params) && begins_transfer(params)
}

impl PendingTransfer {
    pub open spec fn wf(&self) -> bool {
        self.bytes == self@.data.len()
    }
}

/// The images, where they are shown, and the transfer that is under way.
pub struct KittyGraphicsState {
    pub store: ImageStore,
    pub placements: Vec<KittyPlacement>,
    pub pending_transfer: Option<PendingTransfer>,
    pub next_placement_id: u32,
    pub next_generation: u64,
    pub total_decoded: u32,
    pub total_bytes_processed: u64,
}

impl View for KittyGraphicsState {
    type V = KittyModel;

    open spec fn view(&self) -> KittyModel {
        KittyModel {
            store: self.store@,
            placements: self.placements@,
            pending: pending_view(self.pending_transfer),
            next_placement_id: self.next_placement_id,
            next_generation: self.next_generation,
            total_decoded: self.total_decoded,
            total_bytes_processed: self.total_bytes_processed,
        }
    }
}

/// The placements but for those of one image.
fn retain_other_images(placements: &Vec<KittyPlacement>, image_id: u32) -> (rest: Vec<
    KittyPlacement,
>)
    ensures
        rest@ == without_image(placements@, image_id),
{
    let mut rest: Vec<KittyPlacement> = Vec::new();
    let mut i: usize = 0;
    while i < placements.len()
        invariant
            i <= placements@.len(),
            rest@ == without_image(placements@.subrange(0, i as int), image_id),
        decreases placements@.len() - i,
    {
        proof {
            let next = placements@.subrange(0, i + 1);
            assert(next.drop_last() =~= placements@.subrange(0, i as int));
        }
        if placements[i].image_id != image_id {
            rest.push(placements[i]);
        }
        i = i + 1;
    }
    proof {
        assert(placements@.subrange(0, i as int) =~= placements@);
    }
    rest
}

/// The placements but for those with one id.
fn retain_other_placements(placements: &Vec<KittyPlacement>, placement_id: u32) -> (rest: Vec<
    KittyPlacement,
>)
    ensures
        rest@ == without_placement(placements@, placement_id),
{
    let mut rest: Vec<KittyPlacement> = Vec::new();
    let mut i: usize = 0;
    while i < placements.len()
        invariant
            i <= placements@.len(),
            rest@ == without_placement(placements@.subrange(0, i as int), placement_id),
        decreases placements@.len() - i,
    {
        proof {
            let next = placements@.subrange(0, i + 1);
            assert(next.drop_last() =~= placements@.subrange(0, i as int));
        }
        let same = match placements[i].placement_id {
            Some(id) => id == placement_id,
            None => false,
        };
        if !same {
            rest.push(placements[i]);
        }
        i = i + 1;
    }
    proof {
        assert(placements@.subrange(0, i as int) =~= placements@);
    }
    rest
}

/// Puts a placement behind all others that are not above it.
fn insert_by_z(placements: &mut Vec<KittyPlacement>, p: KittyPlacement)
    ensures
        final(placements)@ == inserted_by_z(old(placements)@, p),
{
    let ghost all = placements@;
    let mut i: usize = placements.len();
    proof {
        assert(all.subrange(0, all.len() as int) =~= all);
        assert(all.subrange(all.len() as int, all.len() as int) =~= Seq::empty());
        assert(inserted_by_z(all, p) + Seq::empty() =~= inserted_by_z(all, p));
    }
    while i > 0 && placements[i - 1].z_index > p.z_index
        invariant
            placements@ == all,
            i <= all.len(),
            inserted_by_z(all, p) == inserted_by_z(all.subrange(0, i as int), p) + all.subrange(
                i as int,
                all.len() as int,
            ),
        decreases i,
    {
        proof {
            let head = all.subrange(0, i as int);
            assert(head.drop_last() =~= all.subrange(0, i - 1));
            assert(inserted_by_z(head, p) == inserted_by_z(head.drop_last(), p).push(head.last()));
            assert(inserted_by_z(head.drop_last(), p).push(head.last()) + all.subrange(
                i as int,
                all.len() as int,
            ) =~= inserted_by_z(all.subrange(0, i - 1), p) + all.subrange(
                i - 1,
                all.len() as int,
            ));
        }
        i = i - 1;
    }
    placements.insert(i, p);
    proof {
        let head = all.subrange(0, i as int);
        assert(inserted_by_z(head, p) == head.push(p));
        assert(placements@ =~= head.push(p) + all.subrange(i as int, all.len() as int));
    }
}

/// Sorts placements by their level; those on one level keep their order.
pub fn sort_placements(placements: &mut Vec<KittyPlacement>)
    ensures
        final(placements)@ == sorted_by_z(old(placements)@),
{
    let mut sorted: Vec<KittyPlacement> = Vec::new();
    let mut i: usize = 0;
    while i < placements.len()
        invariant
            placements@ == old(placements)@,
            i <= placements@.len(),
            sorted@ == sorted_by_z(placements@.subrange(0, i as int)),
        decreases placements@.len() - i,
    {
        proof {
            let next = placements@.subrange(0, i + 1);
            assert(next.drop_last() =~= placements@.subrange(0, i as int));
        }
        insert_by_z(&mut sorted, placements[i]);
        i = i + 1;
    }
    proof {
        assert(placements@.subrange(0, i as int) =~= placements@);
    }
    *placements = sorted;
}

/// Insertion keeps placements in stacking order and loses none.
pub proof fn insertion_keeps_order(placements: Seq<KittyPlacement>, p: KittyPlacement)
    requires
        in_z_order(placements),
    ensures
        in_z_order(inserted_by_z(placements, p)),
        inserted_by_z(placements, p).to_multiset() == placements.to_multiset().insert(p),
        inserted_by_z(placements, p).len() == placements.len() + 1,
        forall|i: int|
            0 <= i < inserted_by_z(placements, p).len() ==> #[trigger] inserted_by_z(
                placements,
                p,
            )[i].z_index <= (if placements.len() > 0 && placements.last().z_index > p.z_index {
                placements.last().z_index
            } else {
                p.z_index
            }),
    decreases placements.len(),
{
    broadcast use vstd::seq_lib::group_to_multiset_ensures;

    if placements.len() == 0 || placements.last().z_index <= p.z_index {
        let s = placements.push(p);
        assert forall|i: int| 0 <= i < s.len() implies s[i].z_index <= p.z_index by {
            if i < placements.len() {
                assert(placements[i].z_index <= placements[placements.len() - 1].z_index);
            }
        }
    } else {
        let init = placements.drop_last();
        insertion_keeps_order(init, p);
        let sub = inserted_by_z(init, p);
        let s = sub.push(placements.last());
        assert(placements =~= init.push(placements.last()));
        if init.len() > 0 {
            assert(placements[init.len() - 1].z_index <= placements[placements.len() - 1].z_index);
        }
        assert(placements.to_multiset() =~= init.to_multiset().insert(placements.last()));
        assert(s.to_multiset() =~= placements.to_multiset().insert(p));
    }
}

/// Sorting by level brings placements into stacking order, loses none and adds none.
pub proof fn sorting_orders(placements: Seq<KittyPlacement>)
    ensures
        in_z_order(sorted_by_z(placements)),
        sorted_by_z(placements).to_multiset() == placements.to_multiset(),
        sorted_by_z(placements).len() == placements.len(),
    decreases placements.len(),
{
    broadcast use vstd::seq_lib::group_to_multiset_ensures;

    if placements.len() > 0 {
        sorting_orders(placements.drop_last());
        insertion_keeps_order(sorted_by_z(placements.drop_last()), placements.last());
        assert(placements =~= placements.drop_last().push(placements.last()));
    }
}

/// Taking placements out keeps the rest in stacking order.
proof fn lemma_without_image(placements: Seq<KittyPlacement>, image_id: u32)
    requires
        in_z_order(placements),
    ensures
        in_z_order(without_image(placements, image_id)),
        without_image(placements, image_id).len() <= placements.len(),
        forall|i: int|
            0 <= i < without_image(placements, image_id).len() ==> {
                let p = #[trigger] without_image(placements, image_id)[i];
                p.image_id != image_id && placements.contains(p)
            },
    decreases placements.len(),
{
    if placements.len() > 0 {
        let init = placements.drop_last();
        assert(in_z_order(init));
        lemma_without_image(init, image_id);
        let sub = without_image(init, image_id);
        let rest = without_image(placements, image_id);
        assert forall|i: int| 0 <= i < sub.len() implies placements.contains(#[trigger] sub[i])
            && sub[i].z_index <= placements.last().z_index by {
            let p = sub[i];
            assert(init.contains(p));
            let k = choose|k: int| 0 <= k < init.len() && init[k] == p;
            assert(placements[k] == p);
            assert(placements[k].z_index <= placements[placements.len() - 1].z_index);
        }
        assert(placements[placements.len() - 1] == placements.last());
        assert forall|i: int| 0 <= i < rest.len() implies {
            let p = #[trigger] rest[i];
            p.image_id != image_id && placements.contains(p)
        } by {
            if i < sub.len() {
                assert(rest[i] == sub[i]);
            }
        }
        assert forall|i: int, j: int| 0 <= i <= j < rest.len() implies rest[i].z_index
            <= rest[j].z_index by {
            if i < sub.len() {
                assert(rest[i] == sub[i]);
            }
            if j < sub.len() {
                assert(rest[j] == sub[j]);
            }
        }
    }
}

/// Taking placements out keeps the rest in stacking order.
proof fn lemma_without_placement(placements: Seq<KittyPlacement>, placement_id: u32)
    requires
        in_z_order(placements),
    ensures
        in_z_order(without_placement(placements, placement_id)),
        without_placement(placements, placement_id).len() <= placements.len(),
        forall|i: int|
            0 <= i < without_placement(placements, placement_id).len() ==> {
                let p = #[trigger] without_placement(placements, placement_id)[i];
                p.placement_id != Some(placement_id) && placements.contains(p)
            },
    decreases placements.len(),
{
    if placements.len() > 0 {
        let init = placements.drop_last();
        assert(in_z_order(init));
        lemma_without_placement(init, placement_id);
        let sub = without_placement(init, placement_id);
        let rest = without_placement(placements, placement_id);
        assert forall|i: int| 0 <= i < sub.len() implies placements.contains(#[trigger] sub[i])
            && sub[i].z_index <= placements.last().z_index by {
            let p = sub[i];
            assert(init.contains(p));
            let k = choose|k: int| 0 <= k < init.len() && init[k] == p;
            assert(placements[k] == p);
            assert(placements[k].z_index <= placements[placements.len() - 1].z_index);
        }
        assert(placements[placements.len() - 1] == placements.last());
        assert forall|i: int| 0 <= i < rest.len() implies {
            let p = #[trigger] rest[i];
            p.placement_id != Some(placement_id) && placements.contains(p)
        } by {
            if i < sub.len() {
                assert(rest[i] == sub[i]);
            }
        }
        assert forall|i: int, j: int| 0 <= i <= j < rest.len() implies rest[i].z_index
            <= rest[j].z_index by {
            if i < sub.len() {
                assert(rest[i] == sub[i]);
            }
            if j < sub.len() {
                assert(rest[j] == sub[j]);
            }
        }
    }
}

/// RGB pixels with an opaque alpha added to each.
fn add_alpha(rgb: &Vec<u8>) -> (rgba: Vec<u8>)
    requires
        rgb@.len() % 3 == 0,
    ensures
        rgba@ == with_alpha(rgb@),
        rgba@.len() == rgb@.len() / 3 * 4,
{
    let mut rgba: Vec<u8> = Vec::new();
    let mut i: usize = 0;
    proof {
        assert(rgb@.subrange(0, rgb@.len() as int) =~= rgb@);
        assert(Seq::<u8>::empty() + with_alpha(rgb@) =~= with_alpha(rgb@));
    }
    while i < rgb.len()
        invariant
            i <= rgb@.len(),
            i % 3 == 0,
            rgb@.len() % 3 == 0,
            rgba@.len() == i / 3 * 4,
            rgba@ + with_alpha(rgb@.subrange(i as int, rgb@.len() as int)) == with_alpha(rgb@),
        decreases rgb@.len() - i,
    {
        let ghost before = rgba@;
        proof {
            let rest = rgb@.subrange(i as int, rgb@.len() as int);
            let pixel = seq![rest[0], rest[1], rest[2], 255u8];
            assert(rest.subrange(3, rest.len() as int) =~= rgb@.subrange(
                i + 3,
                rgb@.len() as int,
            ));
            let tail = with_alpha(rgb@.subrange(i + 3, rgb@.len() as int));
            assert(before + (pixel + tail) =~= (before + pixel) + tail);
            assert(before.push(rest[0]).push(rest[1]).push(rest[2]).push(255u8) =~= before
                + pixel);
        }
        rgba.push(rgb[i]);
        rgba.push(rgb[i + 1]);
        rgba.push(rgb[i + 2]);
        rgba.push(255);
        i = i + 3;
    }
    proof {
        assert(rgb@.subrange(i as int, rgb@.len() as int).len() == 0);
        assert(rgba@ + Seq::<u8>::empty() =~= rgba@);
    }
    rgba
}

fn dimensions_text(width: u32, height: u32) -> (text: String)
    ensures
        text@ == dimensions_error(width, height),
{
    let mut text = owned("Image dimensions exceed limit: ");
    append_decimal(&mut text, width as u64);
    append_text(&mut text, "x");
    append_decimal(&mut text, height as u64);
    text
}

fn mismatch_text(expected: usize, got: usize) -> (text: String)
    ensures
        text@ == "Raw image length mismatch: expected "@ + decimal_text(expected as nat)
            + ", got "@ + decimal_text(got as nat),
{
    let mut text = owned("Raw image length mismatch: expected ");
    append_decimal(&mut text, expected as u64);
    append_text(&mut text, ", got ");
    append_decimal(&mut text, got as u64);
    text
}

/// What pixels, or an error, stand for.
pub open spec fn pixels_view(result: Result<(Vec<u8>, u32, u32), String>) -> Result<
    (Seq<u8>, u32, u32),
    Seq<char>,
> {
    match result {
        Ok((pixels, width, height)) => Ok((pixels@, width, height)),
        Err(e) => Err(e@),
    }
}

/// What a decoder's outcome stands for.
pub open spec fn decoder_view(
    decoded: Result<(Vec<u8>, u32, u32), (bool, String)>,
) -> Result<(Seq<u8>, u32, u32), (bool, Seq<char>)> {
    match decoded {
        Ok((pixels, width, height)) => Ok((pixels@, width, height)),
        Err((recognised, e)) => Err((recognised, e@)),
    }
}

impl PlacementRequest {
    fn from_params(params: &KittyGraphicsParams) -> (request: Self)
        ensures
            request == placement_of(params@),
    {
        PlacementRequest {
            placement_id: params.placement_id,
            x: params.x.unwrap_or(0),
            y: params.y.unwrap_or(0),
            width: params.columns.unwrap_or(1),
            height: params.rows.unwrap_or(1),
            z: params.z.unwrap_or(0),
        }
    }
}

/// The first of two values that is there.
fn either<T: Copy>(a: Option<T>, b: Option<T>) -> (v: Option<T>)
    ensures
        v == first_of(a, b),
{
    match a {
        Some(_) => a,
        None => b,
    }
}

impl KittyGraphicsState {
    /// What holds of every graphics state.
    pub closed spec fn wf(&self) -> bool {
        &&& self@.wf()
        &&& self.store.wf()
        &&& self.pending_transfer matches Some(p) ==> p.wf()
    }

    /// The limits on images, their memory and placements are kept, and the placements
    /// are in stacking order, in every graphics state that commands lead to.
    pub proof fn limits_are_kept(&self)
        requires
            self.wf(),
        ensures
            self@.wf(),
            self@.store.order.len() <= MAX_KITTY_IMAGES,
            self@.store.memory() <= MAX_KITTY_CACHE_BYTES,
            self@.placements.len() <= MAX_KITTY_PLACEMENTS,
            in_z_order(self@.placements),
    {
    }

    pub fn new() -> (state: Self)
        ensures
            state.wf(),
            state@ == KittyModel::initial(),
    {
        let state = KittyGraphicsState {
            store: ImageStore::new(),
            placements: Vec::new(),
            pending_transfer: None,
            next_placement_id: 1,
            next_generation: 1,
            total_decoded: 0,
            total_bytes_processed: 0,
        };
        state
    }

    /// Drops the oldest images until the limits are kept.
    fn enforce_image_limits(&mut self)
        requires
            old(self).store.wf(),
            old(self)@.placements.len() <= MAX_KITTY_PLACEMENTS,
            in_z_order(old(self)@.placements),
            old(self).pending_transfer matches Some(p) ==> p.wf(),
        ensures
            final(self).wf(),
            final(self)@ == old(self)@.trimmed(),
            final(self).pending_transfer == old(self).pending_transfer,
    {
        while self.store.access_order.len() > 0 && (self.store.len() > MAX_KITTY_IMAGES
            || self.store.total_image_memory > MAX_KITTY_CACHE_BYTES)
            invariant
                self.store.wf(),
                self@.placements.len() <= MAX_KITTY_PLACEMENTS,
                in_z_order(self@.placements),
                self.pending_transfer matches Some(p) ==> p.wf(),
                self@.trimmed() == old(self)@.trimmed(),
                self.pending_transfer == old(self).pending_transfer,
            decreases self.store@.order.len(),
        {
            let ghost before = self@;
            proof {
                assert(before.trimmed() == before.without_oldest().trimmed());
            }
            let id: u32 = self.store.drop_oldest();
            proof {
                lemma_without_image(self.placements@, id);
            }
            self.placements = retain_other_images(&self.placements, id);
            proof {
                assert(self@ == before.without_oldest());
            }
        }
        proof {
            assert(memory_of(Seq::empty(), self@.store.images) == 0);
            if self@.store.order.len() == 0 {
                assert(self@.store.order =~= Seq::empty());
            }
        }
    }

    /// Carries out a command given as text. A transfer that has waited too long is
    /// given up first; whether one has is up to the clock.
    pub fn parse_graphics_payload(&mut self, payload: &str) -> (result: Result<(), String>)
        requires
            old(self).wf(),
        ensures
            final(self).wf(),
            exists|expired: bool| #[trigger]
                handled_after(old(self)@, expired, payload@, final(self)@, outcome(result)),
            !asks_for_transfer(payload@) ==> start_kept(
                old(self).pending_transfer,
                final(self).pending_transfer,
            ),
    {
        let waited = self.pending_wait();
        let ghost before = self@;
        self.expire_pending_after(waited);
        let result = self.handle_payload(payload);
        proof {
            let expired = waited >= KITTY_PENDING_TIMEOUT_NANOS;
            assert(handled_after(before, expired, payload@, self@, outcome(result)));
        }
        result
    }

    /// Carries out a command given as text.
    pub fn handle_payload(&mut self, payload: &str) -> (result: Result<(), String>)
        requires
            old(self).wf(),
        ensures
            final(self).wf(),
            (final(self)@, outcome(result)) == old(self)@.handled(payload@),
            !asks_for_transfer(payload@) ==> start_kept(
                old(self).pending_transfer,
                final(self).pending_transfer,
            ),
    {
        match KittyGraphicsParams::parse(payload) {
            Ok(params) => self.handle_command(params),
            Err(e) => Err(e),
        }
    }

    /// The parameters of a command.
    pub fn parse_params(payload: &str) -> (result: Result<KittyGraphicsParams, String>)
        ensures
            result matches Ok(params) ==> ParamsModel::parsed(payload@) == Ok::<_, Seq<char>>(
                params@,
            ),
            result matches Err(e) ==> ParamsModel::parsed(payload@) == Err::<ParamsModel, _>(e@),
    {
        KittyGraphicsParams::parse(payload)
    }

    fn handle_command(&mut self, params: KittyGraphicsParams) -> (result: Result<(), String>)
        requires
            old(self).wf(),
        ensures
            final(self).wf(),
            (final(self)@, outcome(result)) == old(self)@.commanded(params@),
            !begins_transfer(params@) ==> start_kept(
                old(self).pending_transfer,
                final(self).pending_transfer,
            ),
    {
        proof {
            reveal(KittyModel::commanded);
        }
        match &params.action {
            Some(action) => {
                let action = action.as_str();
                if same_text(action, "t") || same_text(action, "T") {
                    self.handle_transfer(params)
                } else if same_text(action, "p") {
                    self.handle_placement(params)
                } else if same_text(action, "d") {
                    self.handle_delete(params)
                } else if same_text(action, "q") {
                    Ok(())
                } else {
                    Err(owned("Unknown action"))
                }
            },
            // Continuation chunks carry no action.
            None => {
                if self.pending_transfer.is_some() {
                    self.handle_transfer(params)
                } else {
                    Err(owned("Unknown action"))
                }
            },
        }
    }

    /// One chunk of base64 text decoded.
    fn decode_chunk(data: &Option<String>) -> (chunk: Result<Vec<u8>, String>)
        ensures
            chunk matches Ok(bytes) ==> chunk_of(text_of(*data)) == Ok::<_, Seq<char>>(bytes@),
            chunk matches Err(e) ==> chunk_of(text_of(*data)) == Err::<Seq<u8>, _>(e@),
    {
        match data {
            None => Err(owned("No image data provided")),
            Some(encoded) => {
                if encoded.as_str().as_bytes().len() > MAX_KITTY_TRANSFER_BYTES * 4 / 3 + 4 {
                    return Err(owned("Kitty image transfer exceeds per-image limit"));
                }
                match base64_decode(encoded.as_str()) {
                    Ok(bytes) => Ok(bytes),
                    Err(e) => {
                        let text = chars_of(e.as_str());
                        Err(joined("Base64 decode error: ", text.as_slice()))
                    },
                }
            },
        }
    }

    /// The format of a chunk.
    fn chunk_format(&self, format: &Option<String>) -> (chosen: Result<ImageFormat, String>)
        ensures
            outcome(chosen) == format_of(text_of(*format), self@.pending),
    {
        match format {
            Some(name) => match ImageFormat::from_str(name.as_str()) {
                Some(f) => Ok(f),
                None => {
                    let text = chars_of(name.as_str());
                    Err(joined("Unknown format: ", text.as_slice()))
                },
            },
            None => match &self.pending_transfer {
                Some(pending) => Ok(pending.format),
                None => Ok(ImageFormat::Png),
            },
        }
    }

    /// A transfer command or a continuation.
    fn handle_transfer(&mut self, params: KittyGraphicsParams) -> (result: Result<(), String>)
        requires
            old(self).wf(),
        ensures
            final(self).wf(),
            (final(self)@, outcome(result)) == old(self)@.transferred(params@),
            params@.action is None && old(self).pending_transfer is Some ==> start_kept(
                old(self).pending_transfer,
                final(self).pending_transfer,
            ),
    {
        proof {
            reveal(KittyModel::transferred);
        }
        let wants_placement = match &params.action {
            Some(action) => {
                self.pending_transfer = None;
                same_text(action.as_str(), "T")
            },
            None => false,
        };
        let requested = if wants_placement {
            Some(PlacementRequest::from_params(&params))
        } else {
            None
        };
        let inherited = match &self.pending_transfer {
            Some(pending) => Some(pending.image_id),
            None => None,
        };
        let image_id: u32 = match either(params.image_id, inherited) {
            Some(id) => id,
            None => return Err(owned("Missing image ID")),
        };
        let format = match self.chunk_format(&params.format) {
            Ok(f) => f,
            Err(e) => return Err(e),
        };
        let data = match Self::decode_chunk(&params.data) {
            Ok(data) => data,
            Err(e) => {
                self.pending_transfer = None;
                return Err(e);
            },
        };
        if params.more {
            self.continue_transfer(
                image_id,
                format,
                data,
                params.width,
                params.height,
                requested,
            )
        } else {
            self.finish_transfer(image_id, format, data, params.width, params.height, requested)
        }
    }

    /// Whether a chunk can be added to a pending transfer.
    fn check_continuation(
        pending: &PendingTransfer,
        image_id: u32,
        format: ImageFormat,
        data: &Vec<u8>,
    ) -> (result: Result<(), String>)
        requires
            pending.wf(),
        ensures
            outcome(result) == continues(pending@, image_id, format, data@),
    {
        if pending.image_id != image_id || pending.format != format {
            return Err(owned("Kitty continuation does not match pending transfer"));
        }
        if pending.bytes > MAX_KITTY_TRANSFER_BYTES || data.len() > MAX_KITTY_TRANSFER_BYTES
            - pending.bytes {
            return Err(owned("Kitty image transfer exceeds per-image limit"));
        }
        Ok(())
    }

    fn continue_transfer(
        &mut self,
        image_id: u32,
        format: ImageFormat,
        data: Vec<u8>,
        width: Option<u32>,
        height: Option<u32>,
        requested: Option<PlacementRequest>,
    ) -> (result: Result<(), String>)
        requires
            old(self).wf(),
        ensures
            final(self).wf(),
            (final(self)@, outcome(result)) == old(self)@.continued(
                image_id,
                format,
                data@,
                width,
                height,
                requested,
            ),
            old(self).pending_transfer is Some ==> start_kept(
                old(self).pending_transfer,
                final(self).pending_transfer,
            ),
    {
        proof {
            reveal(KittyModel::continued);
        }
        let mut pending = match self.pending_transfer.take() {
            Some(pending) => {
                if let Err(e) = Self::check_continuation(&pending, image_id, format, &data) {
                    return Err(e);
                }
                pending
            },
            None => PendingTransfer {
                image_id,
                format,
                chunks: Vec::new(),
                bytes: 0,
                width,
                height,
                auto_placement: None,
                started_at: now(),
            },
        };
        let ghost before = pending@;
        if pending.auto_placement.is_none() {
            pending.auto_placement = requested;
        }
        pending.bytes = pending.bytes + data.len();
        let ghost chunks = pending.chunks@;
        pending.chunks.push(data);
        proof {
            assert(pending.chunks@.drop_last() =~= chunks);
            assert(pending@.data == before.data + data@);
            assert(Seq::<u8>::empty() + data@ =~= data@);
        }
        self.pending_transfer = Some(pending);
        Ok(())
    }

    /// All the data of a transfer and of its last chunk.
    fn join_chunks(chunks: &Vec<Vec<u8>>, last: &Vec<u8>) -> (data: Vec<u8>)
        ensures
            data@ == joined_chunks(chunks@) + last@,
    {
        let mut data: Vec<u8> = Vec::new();
        let mut i: usize = 0;
        while i < chunks.len()
            invariant
                i <= chunks@.len(),
                data@ == joined_chunks(chunks@.subrange(0, i as int)),
            decreases chunks@.len() - i,
        {
            proof {
                let next = chunks@.subrange(0, i + 1);
                assert(next.drop_last() =~= chunks@.subrange(0, i as int));
            }
            push_bytes(&mut data, chunks[i].as_slice());
            i = i + 1;
        }
        proof {
            assert(chunks@.subrange(0, i as int) =~= chunks@);
        }
        push_bytes(&mut data, last.as_slice());
        data
    }

    fn finish_transfer(
        &mut self,
        image_id: u32,
        format: ImageFormat,
        data: Vec<u8>,
        width: Option<u32>,
        height: Option<u32>,
        requested: Option<PlacementRequest>,
    ) -> (result: Result<(), String>)
        requires
            old(self).wf(),
        ensures
            final(self).wf(),
            (final(self)@, outcome(result)) == old(self)@.finished(
                image_id,
                format,
                data@,
                width,
                height,
                requested,
            ),
            final(self).pending_transfer is None,
    {
        proof {
            reveal(KittyModel::finished);
        }
        match self.pending_transfer.take() {
            Some(pending) => {
                if let Err(e) = Self::check_continuation(&pending, image_id, format, &data) {
                    return Err(e);
                }
                let all = Self::join_chunks(&pending.chunks, &data);
                self.complete_transfer(
                    image_id,
                    format,
                    all,
                    either(width, pending.width),
                    either(height, pending.height),
                    either(requested, pending.auto_placement),
                )
            },
            None => self.complete_transfer(image_id, format, data, width, height, requested),
        }
    }

    /// Makes pixels of data that is complete, and keeps them.
    fn complete_transfer(
        &mut self,
        image_id: u32,
        format: ImageFormat,
        data: Vec<u8>,
        width: Option<u32>,
        height: Option<u32>,
        placement: Option<PlacementRequest>,
    ) -> (result: Result<(), String>)
        requires
            old(self).wf(),
        ensures
            final(self).wf(),
            (final(self)@, outcome(result)) == old(self)@.completed(
                image_id,
                format,
                data@,
                width,
                height,
                placement,
            ),
            final(self).pending_transfer == old(self).pending_transfer,
    {
        proof {
            reveal(KittyModel::completed);
        }
        match Self::make_pixels(data, format, width, height) {
            Err(e) => Err(e),
            Ok((pixels, w, h)) => {
                self.store_image(image_id, format, pixels, w, h);
                if let Some(request) = placement {
                    self.add_placement(image_id, request);
                }
                Ok(())
            },
        }
    }

    fn make_pixels(
        data: Vec<u8>,
        format: ImageFormat,
        width: Option<u32>,
        height: Option<u32>,
    ) -> (result: Result<(Vec<u8>, u32, u32), String>)
        ensures
            pixels_view(result) == pixels_of(data@, format, width, height),
            result matches Ok(p) ==> p.0@.len() <= MAX_KITTY_TRANSFER_BYTES,
    {
        match format {
            ImageFormat::Rgb => Self::raw_image(data, false, width, height),
            ImageFormat::Rgba => Self::raw_image(data, true, width, height),
            _ => Self::decode_compressed_image(data),
        }
    }

    fn raw_image(data: Vec<u8>, has_alpha: bool, width: Option<u32>, height: Option<u32>) -> (result:
        Result<(Vec<u8>, u32, u32), String>)
        ensures
            pixels_view(result) == raw_pixels(data@, has_alpha, width, height),
            result matches Ok(p) ==> p.0@.len() <= MAX_KITTY_TRANSFER_BYTES,
    {
        let w: u32 = match width {
            Some(w) => w,
            None => return Err(owned("Missing width for raw image format")),
        };
        let h: u32 = match height {
            Some(h) => h,
            None => return Err(owned("Missing height for raw image format")),
        };
        if !Self::validate_dimensions(w, h) {
            return Err(dimensions_text(w, h));
        }
        let pixels: usize = w as usize * h as usize;
        let expected: usize = if has_alpha {
            pixels * 4
        } else {
            pixels * 3
        };
        if data.len() != expected {
            return Err(mismatch_text(expected, data.len()));
        }
        if has_alpha {
            Ok((data, w, h))
        } else {
            Ok((add_alpha(&data), w, h))
        }
    }

    /// A compressed image decoded to RGBA.
    fn decode_compressed_image(data: Vec<u8>) -> (result: Result<(Vec<u8>, u32, u32), String>)
        ensures
            pixels_view(result) == decoded_pixels(data@),
            result matches Ok(p) ==> p.0@.len() <= MAX_KITTY_TRANSFER_BYTES,
    {
        if data.len() > MAX_KITTY_TRANSFER_BYTES {
            return Err(owned("Compressed image exceeds per-image limit"));
        }
        let decoded = decode_image(data, MAX_KITTY_DIMENSION, MAX_KITTY_TRANSFER_BYTES as u64);
        Self::check_decoded(decoded)
    }

    /// Accepts a decoded image whose size is within the limits.
    pub fn check_decoded(decoded: Result<(Vec<u8>, u32, u32), (bool, String)>) -> (result: Result<
        (Vec<u8>, u32, u32),
        String,
    >)
        ensures
            pixels_view(result) == checked_pixels(decoder_view(decoded)),
            result matches Ok(p) ==> valid_dimensions(p.1, p.2) && decoded->Ok_0 == p,
    {
        match decoded {
            Ok((pixels, width, height)) => {
                if Self::validate_dimensions(width, height) {
                    Ok((pixels, width, height))
                } else {
                    Err(dimensions_text(width, height))
                }
            },
            Err((recognised, e)) => {
                let text = chars_of(e.as_str());
                if recognised {
                    Err(joined("Failed to load image: ", text.as_slice()))
                } else {
                    Err(joined("Failed to detect image format: ", text.as_slice()))
                }
            },
        }
    }

    /// Whether an image of this size is accepted.
    fn validate_dimensions(width: u32, height: u32) -> (v: bool)
        ensures
            v == valid_dimensions(width, height),
            v ==> width * height <= MAX_KITTY_PIXELS && width as usize * height as usize
                <= MAX_KITTY_PIXELS,
    {
        if width == 0 || height == 0 || width > MAX_KITTY_DIMENSION || height
            > MAX_KITTY_DIMENSION {
            return false;
        }
        proof {
            assert(width * height <= 8192 * 8192) by (nonlinear_arith)
                requires
                    width <= 8192,
                    height <= 8192,
            ;
        }
        width as u64 * height as u64 <= MAX_KITTY_PIXELS
    }

    fn store_image(
        &mut self,
        image_id: u32,
        format: ImageFormat,
        pixels: Vec<u8>,
        width: u32,
        height: u32,
    )
        requires
            old(self).wf(),
            pixels@.len() <= MAX_KITTY_TRANSFER_BYTES,
        ensures
            final(self).wf(),
            final(self)@ == old(self)@.stored(image_id, format, pixels@, width, height),
            final(self).pending_transfer == old(self).pending_transfer,
    {
        proof {
            reveal(KittyModel::stored);
        }
        let size: u64 = pixels.len() as u64;
        let generation: u64 = self.next_generation;
        let next: u64 = generation.wrapping_add(1);
        self.total_decoded = self.total_decoded.wrapping_add(1);
        self.total_bytes_processed = self.total_bytes_processed.wrapping_add(size);
        self.next_generation = if next == 0 {
            1
        } else {
            next
        };
        let image = KittyImage { generation, format, width, height, data: pixels };
        self.store.store(image_id, image);
        self.enforce_image_limits();
    }

    fn handle_placement(&mut self, params: KittyGraphicsParams) -> (result: Result<(), String>)
        requires
            old(self).wf(),
        ensures
            final(self).wf(),
            (final(self)@, outcome(result)) == old(self)@.placement_handled(params@),
            final(self).pending_transfer == old(self).pending_transfer,
    {
        let image_id: u32 = match params.image_id {
            Some(id) => id,
            None => return Err(owned("Missing image ID")),
        };
        let mut request = PlacementRequest::from_params(&params);
        request.width = either(params.columns, params.width).unwrap_or(1);
        request.height = either(params.rows, params.height).unwrap_or(1);
        self.add_placement(image_id, request);
        Ok(())
    }

    fn add_placement(&mut self, image_id: u32, request: PlacementRequest)
        requires
            old(self).wf(),
        ensures
            final(self).wf(),
            final(self)@ == old(self)@.placed(image_id, request),
            final(self).pending_transfer == old(self).pending_transfer,
    {
        proof {
            reveal(KittyModel::placed);
        }
        let id: u32 = match request.placement_id {
            Some(id) => id,
            None => {
                let id: u32 = self.next_placement_id;
                self.next_placement_id = id.wrapping_add(1);
                id
            },
        };
        let placement = KittyPlacement {
            image_id,
            placement_id: Some(id),
            x: request.x,
            y: request.y,
            width: request.width,
            height: request.height,
            z_index: request.z,
        };
        let ghost before = self.placements@;
        self.placements.push(placement);
        if self.placements.len() > MAX_KITTY_PLACEMENTS {
            self.placements.remove(0);
        }
        proof {
            assert(self.placements@ =~= newest_placements(before.push(placement)));
            sorting_orders(self.placements@);
        }
        sort_placements(&mut self.placements);
    }

    fn handle_delete(&mut self, params: KittyGraphicsParams) -> (result: Result<(), String>)
        requires
            old(self).wf(),
        ensures
            final(self).wf(),
            (final(self)@, outcome(result)) == old(self)@.deleted(params@),
            final(self).pending_transfer == old(self).pending_transfer,
    {
        proof {
            reveal(KittyModel::deleted);
        }
        if let Some(image_id) = params.image_id {
            proof {
                lemma_without_image(self.placements@, image_id);
            }
            self.store.remove(image_id);
            self.placements = retain_other_images(&self.placements, image_id);
        } else if let Some(placement_id) = params.placement_id {
            proof {
                lemma_without_placement(self.placements@, placement_id);
            }
            self.placements = retain_other_placements(&self.placements, placement_id);
        } else {
            return Err(owned("Missing image_id or placement_id for delete"));
        }
        Ok(())
    }

    /// Images decoded so far, bytes of theirs, and images kept.
    pub fn get_stats(&self) -> (stats: (u32, u64, usize))
        requires
            self.wf(),
        ensures
            stats.0 == self@.total_decoded,
            stats.1 == self@.total_bytes_processed,
            stats.2 == self@.store.order.len(),
    {
        (self.total_decoded, self.total_bytes_processed, self.store.len())
    }

    pub fn get_placements(&self) -> (placements: &[KittyPlacement])
        ensures
            placements@ == self@.placements,
    {
        self.placements.as_slice()
    }

    pub fn get_image(&self, id: u32) -> (image: Option<&KittyImage>)
        ensures
            image is Some <==> self@.store.images.dom().contains(id),
            image matches Some(i) ==> i@ == self@.store.images[id],
    {
        self.store.get(id)
    }

    pub fn image_count(&self) -> (n: usize)
        requires
            self.wf(),
        ensures
            n == self@.store.order.len(),
    {
        self.store.len()
    }

    /// The memory that images take, in millions of bytes.
    pub fn image_memory_mb(&self) -> (mb: u64)
        requires
            self.wf(),
        ensures
            mb == self@.store.memory() / 1_000_000,
    {
        self.store.total_image_memory / 1_000_000
    }

    /// How long the pending transfer has been waiting, in nanoseconds: up to the clock.
    fn pending_wait(&self) -> (nanos: u128) {
        match &self.pending_transfer {
            Some(pending) => nanos_since(&pending.started_at),
            None => 0,
        }
    }

    /// Gives up the pending transfer if it has waited too long. Whether it has is up
    /// to the clock.
    pub fn expire_pending_transfer(&mut self)
        requires
            old(self).wf(),
        ensures
            final(self).wf(),
            final(self)@ == old(self)@ || final(self)@ == old(self)@.expired(),
            old(self)@.pending is None ==> final(self)@ == old(self)@,
            start_kept(old(self).pending_transfer, final(self).pending_transfer),
    {
        let waited = self.pending_wait();
        self.expire_pending_after(waited);
    }

    /// Gives up the pending transfer if it has waited for ten seconds or more.
    pub fn expire_pending_after(&mut self, waited_nanos: u128)
        requires
            old(self).wf(),
        ensures
            final(self).wf(),
            final(self)@ == (if waited_nanos >= KITTY_PENDING_TIMEOUT_NANOS {
                old(self)@.expired()
            } else {
                old(self)@
            }),
            start_kept(old(self).pending_transfer, final(self).pending_transfer),
    {
        if waited_nanos >= KITTY_PENDING_TIMEOUT_NANOS {
            self.pending_transfer = None;
        }
    }

    /// Drops all images, placements and transfers. Fresh ids go on from where they were.
    pub fn clear(&mut self)
        ensures
            final(self).wf(),
            final(self)@ == (KittyModel {
                next_placement_id: old(self)@.next_placement_id,
                next_generation: old(self)@.next_generation,
                ..KittyModel::initial()
            }),
    {
        self.store.clear();
        self.placements.clear();
        self.pending_transfer = None;
        self.total_decoded = 0;
        self.total_bytes_processed = 0;
        proof {
            assert(self.placements@ =~= Seq::empty());
        }
    }
}

impl Default for KittyGraphicsState {
    fn default() -> (state: Self)
        ensures
            state.wf(),
            state@ == KittyModel::initial(),
    {
        Self::new()
    }
}

/// What a command does when the pending transfer may have been given up before it.
pub open spec fn handled_after(
    before: KittyModel,
    expired: bool,
    payload: Seq<char>,
    after: KittyModel,
    result: Result<(), Seq<char>>,
) -> bool {
    (after, result) == (if expired {
        before.expired()
    } else {
        before
    }).handled(payload)
}

} // verus!
