use std::io::Read;

use grimoire::kitty::{
    compress_rgba, delete_all, delete_image, transmit_compressed_rgba, transmit_rgba, Placement, TransmitError,
    PAYLOAD_CHUNK_SIZE,
};


#[test]
fn rejects_zero_sized_formula_images() {
    let error = transmit_compressed_rgba(
        &[0; 3],
        0,
        1,
        Placement {
            image_id: 1,
            columns: 1,
            rows: 1,
            z_index: 1,
        },
    )
    .unwrap_err();
    assert_eq!(error, TransmitError::ZeroDimension);
}

#[test]
fn chunks_payload_at_the_kitty_limit() {
    let pixels = (0..16_384)
        .map(|index| (index % 251) as u8)
        .collect::<Vec<_>>();
    let compressed = compress_rgba(&pixels);
    let output = transmit_compressed_rgba(
        &compressed,
        64,
        64,
        Placement {
            image_id: 7,
            columns: 8,
            rows: 4,
            z_index: 1,
        },
    )
    .unwrap();

    let header = output.split_once(';').unwrap().0;
    assert!(header.contains("c=8"));
    assert!(!header.contains(",r="));
    for command in output.split("\x1b\\").filter(|command| !command.is_empty()) {
        let payload = command.split_once(';').unwrap().1;
        assert!(payload.len() <= PAYLOAD_CHUNK_SIZE);
        assert_eq!(payload.len() % 4, 0);
    }
}

#[test]
fn deletion_commands() {
    assert_eq!(delete_image(7), "\x1b_Ga=d,d=I,i=7,q=2\x1b\\");
    assert!(delete_all().starts_with("\x1b_G"));
}

#[test]
fn the_payload_is_the_base64_of_the_pixels() {
    let output = transmit_compressed_rgba(
        b"abc",
        1,
        1,
        Placement { image_id: 2, columns: 1, rows: 1, z_index: 0 },
    )
    .unwrap();
    assert!(output.contains(";YWJj\x1b\\"));
}

#[test]
fn compressed_pixels_inflate_back() {
    let pixels = (0..4_096).map(|index| (index % 7) as u8).collect::<Vec<_>>();
    let compressed = compress_rgba(&pixels);
    assert_ne!(compressed, pixels);
    assert!(compressed.len() < pixels.len());
    let mut inflated = Vec::new();
    flate2::read::ZlibDecoder::new(compressed.as_slice()).read_to_end(&mut inflated).unwrap();
    assert_eq!(inflated, pixels);
    let placement = Placement { image_id: 7, columns: 2, rows: 1, z_index: 0 };
    assert_eq!(
        transmit_rgba(&pixels, 32, 32, placement).unwrap(),
        transmit_compressed_rgba(&compressed, 32, 32, placement).unwrap()
    );
    assert_eq!(transmit_rgba(&pixels, 0, 32, placement).unwrap_err(), TransmitError::ZeroDimension);
}
