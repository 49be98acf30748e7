use zenith::text::trim_text;

/// The characters that are trimmed are the 25 of the White_Space property.
#[test]
fn white_space_is_trimmed() {
    let mut trimmed: Vec<u32> = Vec::new();
    for c in '\0'..=char::MAX {
        if trim_text(&c.to_string()).is_empty() {
            trimmed.push(c as u32);
        }
    }
    let mut listed: Vec<u32> = (0x09..=0x0D).collect();
    listed.extend([0x20, 0x85, 0xA0, 0x1680]);
    listed.extend(0x2000..=0x200A);
    listed.extend([0x2028, 0x2029, 0x202F, 0x205F, 0x3000]);
    assert_eq!(trimmed, listed);
    assert_eq!(trimmed.len(), 25);
}

/// Only the ends are trimmed.
#[test]
fn inner_white_space_is_kept() {
    assert_eq!(trim_text("\u{3000} Wave Gen \n"), "Wave Gen");
}
