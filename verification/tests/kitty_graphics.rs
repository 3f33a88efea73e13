use base64::Engine;
use std::time::Duration;
use jterm3::kitty_graphics::{
    ImageFormat, KittyGraphicsState, KittyPlacement, KITTY_PENDING_TIMEOUT_NANOS,
};

#[test]
fn test_parse_graphics_params() {
    let payload = "a=t;i=1;s=100;v=100;f=png";
    let params = KittyGraphicsState::parse_params(payload).unwrap();
    assert_eq!(params.action.as_deref(), Some("t"));
    assert_eq!(params.image_id, Some(1));
    assert_eq!(params.width, Some(100));
    assert_eq!(params.height, Some(100));
    assert_eq!(params.format.as_deref(), Some("png"));
}

#[test]
fn parses_standard_apc_controls_and_data() {
    let params = KittyGraphicsState::parse_params("Gf=32,s=1,v=1,a=T,i=7;AQIDBA==").unwrap();

    assert_eq!(params.action.as_deref(), Some("T"));
    assert_eq!(params.image_id, Some(7));
    assert_eq!(params.width, Some(1));
    assert_eq!(params.height, Some(1));
    assert_eq!(params.format.as_deref(), Some("32"));
    assert_eq!(params.data.as_deref(), Some("AQIDBA=="));
}

#[test]
fn numeric_formats_follow_the_kitty_protocol() {
    assert_eq!(ImageFormat::from_str("24"), Some(ImageFormat::Rgb));
    assert_eq!(ImageFormat::from_str("32"), Some(ImageFormat::Rgba));
    assert_eq!(ImageFormat::from_str("100"), Some(ImageFormat::Png));
}

#[test]
fn test_placement_ordering() {
    let mut state = KittyGraphicsState::new();
    state.placements.push(KittyPlacement {
        image_id: 1,
        placement_id: None,
        x: 0,
        y: 0,
        width: 10,
        height: 10,
        z_index: 5,
    });
    state.placements.push(KittyPlacement {
        image_id: 2,
        placement_id: None,
        x: 10,
        y: 10,
        width: 10,
        height: 10,
        z_index: -1,
    });

    // Sort by z_index
    state.placements.sort_by_key(|p| p.z_index);

    assert_eq!(state.placements[0].z_index, -1);
    assert_eq!(state.placements[1].z_index, 5);
}

#[test]
fn test_complete_kitty_workflow() {
    let mut state = KittyGraphicsState::new();

    // Create a simple 2x2 RGBA image (red square)
    // 4 pixels * 4 bytes (RGBA) = 16 bytes
    let mut image_data = Vec::new();
    for _ in 0..4 {
        image_data.extend_from_slice(&[255, 0, 0, 255]); // Red pixel RGBA
    }

    // Encode to base64
    let base64_data = base64::engine::general_purpose::STANDARD.encode(&image_data);

    // The legacy semicolon-delimited syntax remains supported.
    let payload = format!("a=t;i=1;s=2;v=2;f=rgba;m=0;{}", base64_data);
    state.parse_graphics_payload(&payload).unwrap();

    let image = state.get_image(1).unwrap();
    assert_eq!((image.width, image.height), (2, 2));
    assert_eq!(image.data, image_data);
}

#[test]
fn standard_rgba_transmit_and_display_creates_placement() {
    let mut state = KittyGraphicsState::new();
    let data = [1, 2, 3, 4];
    let encoded = base64::engine::general_purpose::STANDARD.encode(data);

    state
        .parse_graphics_payload(&format!("Gf=32,s=1,v=1,a=T,i=1;{encoded}"))
        .unwrap();

    let image = state.get_image(1).unwrap();
    assert_eq!(image.format, ImageFormat::Rgba);
    assert_eq!((image.width, image.height), (1, 1));
    assert_eq!(image.data, data);
    assert_eq!(state.get_placements().len(), 1);
    let placement = &state.get_placements()[0];
    assert_eq!(placement.image_id, 1);
    assert_eq!((placement.width, placement.height), (1, 1));
}

#[test]
fn raw_rgb_is_expanded_to_rgba() {
    let mut state = KittyGraphicsState::new();
    let rgb = [10, 20, 30, 40, 50, 60];
    let encoded = base64::engine::general_purpose::STANDARD.encode(rgb);

    state
        .parse_graphics_payload(&format!("Gf=24,s=2,v=1,a=t,i=2;{encoded}"))
        .unwrap();

    assert_eq!(
        state.get_image(2).unwrap().data,
        [10, 20, 30, 255, 40, 50, 60, 255]
    );
}

#[test]
fn raw_transfer_rejects_invalid_dimensions_and_lengths() {
    let mut state = KittyGraphicsState::new();
    let rgba = base64::engine::general_purpose::STANDARD.encode([1, 2, 3, 4]);
    let error = state
        .parse_graphics_payload(&format!("Gf=32,s=0,v=1,a=t,i=3;{rgba}"))
        .unwrap_err();
    assert!(error.contains("dimensions exceed limit"));
    assert!(state.get_image(3).is_none());

    let short = base64::engine::general_purpose::STANDARD.encode([1, 2, 3]);
    let error = state
        .parse_graphics_payload(&format!("Gf=32,s=1,v=1,a=t,i=4;{short}"))
        .unwrap_err();
    assert!(error.contains("length mismatch"));
    assert!(state.get_image(4).is_none());
}

#[test]
fn standard_continuation_inherits_identity_and_auto_placement() {
    let mut state = KittyGraphicsState::new();
    let first = base64::engine::general_purpose::STANDARD.encode([1, 2]);
    let last = base64::engine::general_purpose::STANDARD.encode([3, 4]);

    state
        .parse_graphics_payload(&format!("Gf=32,s=1,v=1,a=T,i=9,m=1;{first}"))
        .unwrap();
    assert!(state.get_image(9).is_none());
    state
        .parse_graphics_payload(&format!("Gm=0;{last}"))
        .unwrap();

    assert_eq!(state.get_image(9).unwrap().data, [1, 2, 3, 4]);
    assert_eq!(state.get_placements().len(), 1);
    assert_eq!(state.get_placements()[0].image_id, 9);
    assert!(state.pending_transfer.is_none());
}

#[test]
fn mismatched_continuation_is_rejected_and_discarded() {
    let mut state = KittyGraphicsState::new();
    let first = base64::engine::general_purpose::STANDARD.encode([1, 2]);
    let last = base64::engine::general_purpose::STANDARD.encode([3, 4]);

    state
        .parse_graphics_payload(&format!("Gf=32,s=1,v=1,a=t,i=10,m=1;{first}"))
        .unwrap();
    let error = state
        .parse_graphics_payload(&format!("Gi=11,m=0;{last}"))
        .unwrap_err();

    assert!(error.contains("does not match"));
    assert!(state.pending_transfer.is_none());
    assert!(state.get_image(10).is_none());
    assert!(state.get_image(11).is_none());
}

#[test]
fn failed_continuation_is_cleared_and_can_be_retried() {
    let mut state = KittyGraphicsState::new();
    let first = base64::engine::general_purpose::STANDARD.encode([1, 2]);
    state
        .parse_graphics_payload(&format!("Gf=32,s=1,v=1,a=t,i=12,m=1;{first}"))
        .unwrap();

    assert!(state.parse_graphics_payload("Gm=0;%%%bad%%%").is_err());
    assert!(state.pending_transfer.is_none());

    let complete = base64::engine::general_purpose::STANDARD.encode([1, 2, 3, 4]);
    state
        .parse_graphics_payload(&format!("Gf=32,s=1,v=1,a=t,i=12;{complete}"))
        .unwrap();
    assert_eq!(state.get_image(12).unwrap().data, [1, 2, 3, 4]);
}

#[test]
fn stale_pending_transfer_expires() {
    let mut state = KittyGraphicsState::new();
    let first = base64::engine::general_purpose::STANDARD.encode([1, 2]);
    state
        .parse_graphics_payload(&format!("Gf=32,s=1,v=1,a=t,i=13,m=1;{first}"))
        .unwrap();
    state.pending_transfer.as_mut().unwrap().started_at =
        std::time::Instant::now() - Duration::from_nanos(KITTY_PENDING_TIMEOUT_NANOS as u64);

    state.expire_pending_transfer();

    assert!(state.pending_transfer.is_none());
}
