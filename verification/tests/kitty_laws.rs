use base64::Engine;
use jterm3::kitty_graphics::KittyGraphicsState;
use jterm3::terminal::TerminalState;

fn encoded(bytes: &[u8]) -> String {
    base64::engine::general_purpose::STANDARD.encode(bytes)
}

fn png(width: u32, height: u32, pixel: [u8; 4]) -> Vec<u8> {
    let picture = image::RgbaImage::from_pixel(width, height, image::Rgba(pixel));
    let mut bytes = std::io::Cursor::new(Vec::new());
    picture.write_to(&mut bytes, image::ImageFormat::Png).unwrap();
    bytes.into_inner()
}

#[test]
fn a_png_is_decoded_to_its_pixels() {
    let mut state = KittyGraphicsState::new();
    let data = encoded(&png(2, 1, [9, 8, 7, 255]));
    state.parse_graphics_payload(&format!("Gf=100,a=t,i=5;{data}")).unwrap();
    let image = state.get_image(5).unwrap();
    assert_eq!((image.width, image.height), (2, 1));
    assert_eq!(image.data, [9, 8, 7, 255, 9, 8, 7, 255]);
}

#[test]
fn broken_pictures_are_refused() {
    let mut state = KittyGraphicsState::new();
    let data = encoded(b"not a picture");
    assert!(state.parse_graphics_payload(&format!("Gf=100,a=t,i=5;{data}")).is_err());
    assert_eq!(state.image_count(), 0);
    assert!(state.parse_graphics_payload("Gf=32,s=1,v=1,a=t,i=5;%%%").is_err());
}

#[test]
fn a_deleted_image_is_not_found() {
    let mut state = KittyGraphicsState::new();
    let data = encoded(&[1, 2, 3, 4]);
    state.parse_graphics_payload(&format!("Gf=32,s=1,v=1,a=T,i=1;{data}")).unwrap();
    assert_eq!(state.get_placements().len(), 1);
    state.parse_graphics_payload("Ga=d,d=i,i=1").unwrap();
    assert!(state.get_image(1).is_none());
    assert_eq!(state.get_placements().len(), 0);
}

#[test]
fn chunks_in_any_number_make_the_same_image() {
    let pixels: Vec<u8> = (0..16).collect();
    let mut whole = KittyGraphicsState::new();
    whole
        .parse_graphics_payload(&format!("Gf=32,s=2,v=2,a=t,i=1;{}", encoded(&pixels)))
        .unwrap();
    let mut parts = KittyGraphicsState::new();
    parts
        .parse_graphics_payload(&format!("Gf=32,s=2,v=2,a=t,i=1,m=1;{}", encoded(&pixels[..6])))
        .unwrap();
    parts.parse_graphics_payload(&format!("Gm=1;{}", encoded(&pixels[6..9]))).unwrap();
    parts.parse_graphics_payload(&format!("Gm=0;{}", encoded(&pixels[9..]))).unwrap();
    assert_eq!(parts.get_image(1).unwrap().data, whole.get_image(1).unwrap().data);
}

#[test]
fn images_are_handed_over_once_each() {
    let mut state = KittyGraphicsState::new();
    let data = encoded(&[1, 2, 3, 4]);
    state.parse_graphics_payload(&format!("Gf=32,s=1,v=1,a=T,i=3;{data}")).unwrap();
    let (live, stale) = state.image_updates(&Vec::new());
    assert_eq!(live, [3]);
    assert_eq!(stale, [3]);
    let generation = state.get_image(3).unwrap().generation;
    let (live, stale) = state.image_updates(&vec![(3, generation)]);
    assert_eq!(live, [3]);
    assert!(stale.is_empty());
    assert_eq!(state.image_places().len(), 1);
}

#[test]
fn clearing_forgets_all_images() {
    let mut state = KittyGraphicsState::new();
    let data = encoded(&[1, 2, 3, 4]);
    state.parse_graphics_payload(&format!("Gf=32,s=1,v=1,a=T,i=3;{data}")).unwrap();
    assert_eq!(state.get_stats().0, 1);
    state.clear();
    assert_eq!(state.image_count(), 0);
    assert_eq!(state.get_stats(), (0, 0, 0));
    assert_eq!(state.image_memory_mb(), 0);
}

#[test]
fn a_transfer_waits_for_a_while() {
    let mut state = KittyGraphicsState::new();
    let data = encoded(&[1, 2]);
    state.parse_graphics_payload(&format!("Gf=32,s=1,v=1,a=t,i=3,m=1;{data}")).unwrap();
    state.expire_pending_after(9_999_999_999);
    assert!(state.pending_transfer.is_some());
    state.expire_pending_after(10_000_000_000);
    assert!(state.pending_transfer.is_none());
}

#[test]
fn the_terminal_takes_up_graphics_commands() {
    let mut terminal = TerminalState::new(20, 5);
    let data = encoded(&[1, 2, 3, 4]);
    terminal.process_input(format!("\x1b_Gf=32,s=1,v=1,a=T,i=8;{data}\x1b\\X").as_bytes());
    assert_eq!(terminal.kitty_graphics.get_image(8).unwrap().data, [1, 2, 3, 4]);
    assert_eq!(terminal.grid.get(0, 0).character, 'X');
}

#[test]
fn a_continued_transfer_keeps_its_start() {
    let mut state = KittyGraphicsState::new();
    state.handle_payload("a=t,i=7,f=24,s=1,v=2,m=1;AAAA").unwrap();
    let started_at = state.pending_transfer.as_ref().unwrap().started_at;
    state.parse_graphics_payload("a=q,i=1").unwrap();
    state.parse_graphics_payload("i=7,f=24,m=1;AAAA").unwrap();
    let pending = state.pending_transfer.as_ref().unwrap();
    assert_eq!((pending.started_at, pending.bytes), (started_at, 6));
}
