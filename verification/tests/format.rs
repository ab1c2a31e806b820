use lib::{detect_format, detect_format_from_extension, J2KFormat};

#[test]
fn detects_jp2_signature_box() {
    let buf = [0x00u8, 0x00, 0x00, 0x0c, 0x6a, 0x50, 0x20, 0x20, 0x0d, 0x0a, 0x87, 0x0a, 0, 0];
    assert_eq!(detect_format(&buf), Ok(J2KFormat::JP2));
}

#[test]
fn detects_jp2_short_magic() {
    let buf = [0x0du8, 0x0a, 0x87, 0x0a, 1, 2];
    assert_eq!(detect_format(&buf), Ok(J2KFormat::JP2));
}

#[test]
fn detects_codestream() {
    let buf = [0xffu8, 0x4f, 0xff, 0x51, 0x00];
    assert_eq!(detect_format(&buf), Ok(J2KFormat::J2K));
}

#[test]
fn refuses_unknown_bytes() {
    let buf = [0x89u8, 0x50, 0x4e, 0x47];
    assert_eq!(
        detect_format(&buf),
        Err("Can't detect image format from bytes".to_string())
    );
    assert!(detect_format(&[]).is_err());
}

#[test]
fn detects_extensions_in_any_case() {
    assert_eq!(detect_format_from_extension(Some("jp2")), Ok(J2KFormat::JP2));
    assert_eq!(detect_format_from_extension(Some("JPH")), Ok(J2KFormat::JP2));
    assert_eq!(detect_format_from_extension(Some("jpt")), Ok(J2KFormat::JPT));
    assert_eq!(detect_format_from_extension(Some("J2K")), Ok(J2KFormat::J2K));
    assert_eq!(detect_format_from_extension(Some("j2c")), Ok(J2KFormat::J2K));
    assert_eq!(detect_format_from_extension(Some("jpc")), Ok(J2KFormat::J2K));
    assert_eq!(detect_format_from_extension(Some("JhC")), Ok(J2KFormat::J2K));
}

#[test]
fn refuses_missing_or_unknown_extension() {
    assert_eq!(
        detect_format_from_extension(None),
        Err("No file extension".to_string())
    );
    assert_eq!(
        detect_format_from_extension(Some("PNG")),
        Err("Unknown file extension: png".to_string())
    );
}
