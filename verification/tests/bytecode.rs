use lib::bytecode::image_message;
use lib::bytecode::{frame_bytecode, unframe_bytecode, ImageError, MAGIC, VERSION};

#[test]
fn write_then_read() {
    let code = vec![0x01, 7, 0, 0, 0, 0, 0, 0, 0, 0x60, 0xFF];

    let image = frame_bytecode(&code);

    let loaded = unframe_bytecode(&image).unwrap();

    assert_eq!(code, loaded);
}

#[test]
fn invalid_magic() {
    let mut bytes = Vec::new();

    bytes.extend([1, 2, 3, 4]);
    bytes.push(VERSION);
    bytes.extend((0u32).to_le_bytes());

    assert!(unframe_bytecode(&bytes).is_err());
    assert_eq!(unframe_bytecode(&bytes), Err(ImageError::BadMagic));
}

#[test]
fn frame_layout() {
    let image = frame_bytecode(&[0xFF, 0x60]);
    assert_eq!(image, vec![0x4D, 0x56, 0x4D, 0x00, 0x01, 2, 0, 0, 0, 0xFF, 0x60]);
    assert_eq!(&image[0..4], &MAGIC);
    let empty = frame_bytecode(&[]);
    assert_eq!(empty, vec![0x4D, 0x56, 0x4D, 0x00, 0x01, 0, 0, 0, 0]);
    assert_eq!(unframe_bytecode(&empty), Ok(vec![]));
}

#[test]
fn long_code_length_field() {
    let code = vec![0x02u8; 300];
    let image = frame_bytecode(&code);
    assert_eq!(&image[5..9], &[44, 1, 0, 0]);
    assert_eq!(unframe_bytecode(&image).unwrap(), code);
}

#[test]
fn image_errors() {
    assert_eq!(unframe_bytecode(&[0x4D, 0x56, 0x4D, 0x00, 0x01, 0, 0, 0]), Err(ImageError::TooShort));
    assert_eq!(unframe_bytecode(&[0x4D, 0x56, 0x4D, 0x00, 0x02, 0, 0, 0, 0]), Err(ImageError::BadVersion));
    assert_eq!(unframe_bytecode(&[0x4D, 0x56, 0x4D, 0x00, 0x01, 1, 0, 0, 0]), Err(ImageError::BadLength));
    assert_eq!(
        unframe_bytecode(&[0x4D, 0x56, 0x4D, 0x00, 0x01, 0, 0, 0, 0, 0xFF]),
        Err(ImageError::BadLength)
    );
}

#[test]
fn image_error_messages() {
    assert_eq!(image_message(ImageError::TooShort), "File too short");
    assert_eq!(image_message(ImageError::BadMagic), "Invalid magic bytes");
    assert_eq!(image_message(ImageError::BadVersion), "Unsupported bytecode version");
    assert_eq!(image_message(ImageError::BadLength), "Incorrect code length");
}
