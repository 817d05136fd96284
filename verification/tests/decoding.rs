use chippin::gfx::{Flat2DArray, Pixel};
use chippin::opcode::{format_err, Opcode};

#[test]
fn opcode_fields_are_cut_by_fixed_masks() {
    let op = Opcode(0xD123);
    assert_eq!(op.x(), 1);
    assert_eq!(op.y(), 2);
    assert_eq!(op.n(), 3);
    assert_eq!(op.kk(), 0x23);
    assert_eq!(op.addr(), 0x123);
    assert_eq!(op.class(), 0xD);
    assert_eq!(op.low_byte(), 0x23);
}

#[test]
fn opcode_fields_of_extreme_words() {
    let zero = Opcode(0x0000);
    assert_eq!(zero.x(), 0);
    assert_eq!(zero.addr(), 0);
    let all = Opcode(0xFFFF);
    assert_eq!(all.x(), 0xF);
    assert_eq!(all.y(), 0xF);
    assert_eq!(all.n(), 0xF);
    assert_eq!(all.kk(), 0xFF);
    assert_eq!(all.addr(), 0xFFF);
}

#[test]
fn invalid_opcode_text_shows_the_word_in_decimal() {
    assert_eq!(format_err(Opcode(1)), "OPCODE: 1 NOT VALID");
    assert_eq!(format_err(Opcode(0)), "OPCODE: 0 NOT VALID");
    assert_eq!(format_err(Opcode(0x0ABC)), "OPCODE: 2748 NOT VALID");
    assert_eq!(format_err(Opcode(65535)), "OPCODE: 65535 NOT VALID");
}

#[test]
fn flat_grid_set_get_and_clear() {
    let mut g = Flat2DArray::new(64, 32);
    assert_eq!(*g.get(0, 0), 0);
    g.set(5, 3, 0xFF);
    assert_eq!(*g.get(5, 3), 0xFF);
    assert_eq!(*g.get(3, 5), 0);
    g.clear();
    assert_eq!(*g.get(5, 3), 0);
}

#[test]
fn pixel_channels() {
    let p = Pixel::new(10, 20, 30);
    assert_eq!((p.r, p.g, p.b, p.pad), (10, 20, 30, 0));
    let w = Pixel::white();
    assert_eq!((w.r, w.g, w.b, w.pad), (255, 255, 255, 0));
    let d = Pixel::default();
    assert_eq!((d.r, d.g, d.b, d.pad), (0, 0, 0, 0));
}
