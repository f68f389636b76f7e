use scanmem::hexview::{row_offset_text, view_title};

#[test]
fn row_offsets_are_zero_padded_hex() {
    assert_eq!(row_offset_text(0x1000), "0x00001000");
    assert_eq!(row_offset_text(0), "0x00000000");
    assert_eq!(row_offset_text(0x7f1c3a000000), "0x7f1c3a000000");
}

#[test]
fn the_hex_view_title_follows_the_cursor_and_the_edit() {
    assert_eq!(view_title(Some(0x1010), ""), "Hex View @ 0x1010 — type hex digits, Enter to write");
    assert_eq!(view_title(Some(0x1010), "a"), "Hex View @ 0x1010 — editing byte: a_");
    assert_eq!(view_title(None, ""), "Hex View — h: open at the selected match/cheat");
}
