use pak_extract::classify::{classify, PayloadKind};

#[test]
fn luac_magic_wins() {
    let buf = [0x04, 0x00, 0x1b, 0x4c, 0x75, 0xff];
    assert_eq!(classify(&buf, b"x.luac"), PayloadKind::ScriptBytecode);
}

#[test]
fn object_stream_magic() {
    let buf = [0x00, 0x00, 0x00, 0x00, 0x03, 0x01];
    assert_eq!(classify(&buf, b"whatever"), PayloadKind::ObjectStream);
}

#[test]
fn datasheet_magic() {
    let buf = [0x11, 0x00, 0x00, 0x00, 0x99];
    assert_eq!(classify(&buf, b"table.datasheet"), PayloadKind::Datasheet);
}

#[test]
fn distribution_suffix_applies_after_magics() {
    assert_eq!(
        classify(b"anything else", b"regions.distribution"),
        PayloadKind::Distribution
    );
    // a magic prefix beats the filename rule
    let buf = [0x04, 0x00, 0x1b, 0x4c, 0x75];
    assert_eq!(classify(&buf, b"odd.distribution"), PayloadKind::ScriptBytecode);
}

#[test]
fn everything_else_is_opaque() {
    assert_eq!(classify(b"plain text", b"readme.txt"), PayloadKind::Opaque);
    assert_eq!(classify(&[], b""), PayloadKind::Opaque);
    // four zero bytes alone are not the object-stream magic
    assert_eq!(classify(&[0x00, 0x00, 0x00, 0x00], b"f"), PayloadKind::Opaque);
    // a truncated datasheet magic does not match
    assert_eq!(classify(&[0x11, 0x00, 0x00], b"f"), PayloadKind::Opaque);
}
