use page_display::command::{Command, DisplayError};
use page_display::interface::DisplayInterface;
use page_display::properties::DisplayProperties;
use page_display::rect::Rect;
use page_display::rotation::DisplayRotation;
use page_display::tiled::{Page, PixelOperation, Tile, TiledMode};
use page_display::variant::Sh1106_128_64;

#[derive(Debug, Clone, PartialEq)]
enum Sent {
    Cmd(Command),
    Data(Vec<u8>),
}

#[derive(Default)]
struct RecordingSink {
    sent: Vec<Sent>,
}

impl DisplayInterface for RecordingSink {
    fn send_command(&mut self, cmd: Command) -> Result<(), DisplayError> {
        self.sent.push(Sent::Cmd(cmd));
        Ok(())
    }

    fn send_data(&mut self, buf: &[u8]) -> Result<(), DisplayError> {
        self.sent.push(Sent::Data(buf.to_vec()));
        Ok(())
    }
}

fn tiled() -> TiledMode<RecordingSink> {
    TiledMode::new(DisplayProperties::new(
        Sh1106_128_64::variant(),
        RecordingSink::default(),
        DisplayRotation::Rotate0,
    ))
}

#[test]
fn page_new_repeats_pattern() {
    let p = Page::new(6, 0xA5);
    assert_eq!(p.bytes, vec![0xA5; 6]);
}

#[test]
fn page_modify_pixel_set_clear_toggle() {
    let mut p = Page::new(4, 0);
    p.modify_pixel(2, 3, PixelOperation::On);
    assert_eq!(p.bytes, vec![0, 0, 0b1000, 0]);
    p.modify_pixel(2, 3, PixelOperation::Toggle);
    assert_eq!(p.bytes, vec![0, 0, 0, 0]);
    p.modify_pixel(2, 3, PixelOperation::Toggle);
    p.modify_pixel(2, 3, PixelOperation::Toggle);
    assert_eq!(p.bytes, vec![0, 0, 0, 0]);
    p.modify_pixel(0, 11, PixelOperation::On);
    assert_eq!(p.bytes[0], 0b1000);
    p.modify_pixel(0, 11, PixelOperation::Off);
    assert_eq!(p.bytes[0], 0);
    // out-of-range column: no-op
    p.modify_pixel(4, 0, PixelOperation::On);
    assert_eq!(p.bytes, vec![0, 0, 0, 0]);
}

#[test]
fn page_apply_mask_semantics() {
    let mut p = Page::new(5, 0b0101_0101);
    p.apply_mask(0b0000_1111, 1, 4, PixelOperation::On);
    assert_eq!(p.bytes, vec![0x55, 0x5F, 0x5F, 0x5F, 0x55]);
    p.apply_mask(0b0000_1111, 1, 2, PixelOperation::Off);
    assert_eq!(p.bytes[1], 0x50);
    p.apply_mask(0b1111_0000, 0, 1, PixelOperation::Toggle);
    assert_eq!(p.bytes[0], 0b1010_0101);
    // inverted range: no-op
    let before = p.bytes.clone();
    p.apply_mask(0xFF, 3, 1, PixelOperation::On);
    assert_eq!(p.bytes, before);
    // range clamped to the page width
    p.apply_mask(0xFF, 4, 200, PixelOperation::On);
    assert_eq!(p.bytes[4], 0xFF);
}

#[test]
fn page_fill_solid_single_band_mask() {
    let mut p = Page::new(8, 0);
    p.fill_solid(&Rect::new(2, 3, 4, 3), true);
    for x in 0..8usize {
        let expect = if (2..6).contains(&x) { 0b0011_1000 } else { 0 };
        assert_eq!(p.bytes[x], expect);
    }
    p.fill_solid(&Rect::new(0, 0, 8, 8), true);
    assert_eq!(p.bytes, vec![0xFF; 8]);
    p.fill_solid(&Rect::new(1, 6, 2, 10), false);
    assert_eq!(p.bytes[1], 0b0011_1111);
}

#[test]
fn page_fill_overwrites_all() {
    let mut p = Page::new(3, 0x12);
    p.fill(0xEE);
    assert_eq!(p.bytes, vec![0xEE; 3]);
}

#[test]
fn tile_modify_pixel_selects_page() {
    let mut t = Tile {
        pages: vec![Page::new(4, 0), Page::new(4, 0), Page::new(4, 0)],
        col_offset: 7,
        page_offset: 2,
    };
    t.modify_pixel(1, 13, PixelOperation::On);
    assert_eq!(t.pages[1].bytes, vec![0, 0b10_0000, 0, 0]);
    // off the tile: no-ops
    t.modify_pixel(4, 0, PixelOperation::On);
    t.modify_pixel(0, 24, PixelOperation::On);
    assert_eq!(t.pages[0].bytes, vec![0; 4]);
    assert_eq!(t.pages[2].bytes, vec![0; 4]);
}

#[test]
fn tile_fill_solid_bands_across_pages() {
    let mut t = Tile {
        pages: vec![Page::new(8, 0), Page::new(8, 0), Page::new(8, 0)],
        col_offset: 0,
        page_offset: 0,
    };
    // rows 3..17: partial top band, full middle page, partial bottom band
    t.fill_solid(&Rect::new(0, 3, 8, 14), true);
    for x in 0..8usize {
        assert_eq!(t.pages[0].bytes[x], 0b1111_1000);
        assert_eq!(t.pages[1].bytes[x], 0xFF);
        assert_eq!(t.pages[2].bytes[x], 0b0000_0001);
    }
    // clearing a sub-rectangle only clears those pixels
    t.fill_solid(&Rect::new(2, 8, 3, 8), false);
    for x in 0..8usize {
        let expect = if (2..5).contains(&x) { 0 } else { 0xFF };
        assert_eq!(t.pages[1].bytes[x], expect);
    }
}

#[test]
fn draw_page_emits_addressing_then_data() {
    let mut mode = tiled();
    let page = Page::new(3, 0xAB);
    mode.draw_page(4, 0x15, &page).unwrap();
    let props = mode.release();
    // SH1106 column offset 2: 0x15 + 2 = 0x17
    assert_eq!(
        props.iface.sent,
        vec![
            Sent::Cmd(Command::PageAddress(4)),
            Sent::Cmd(Command::ColumnAddressLow(0x7)),
            Sent::Cmd(Command::ColumnAddressHigh(0x1)),
            Sent::Data(vec![0xAB, 0xAB, 0xAB]),
        ]
    );
}

#[test]
fn draw_tile_writes_pages_at_anchor() {
    let mut mode = tiled();
    let tile = Tile {
        pages: vec![Page::new(2, 0x01), Page::new(2, 0x02)],
        col_offset: 3,
        page_offset: 5,
    };
    mode.draw_tile(&tile).unwrap();
    let props = mode.release();
    assert_eq!(
        props.iface.sent,
        vec![
            Sent::Cmd(Command::PageAddress(5)),
            Sent::Cmd(Command::ColumnAddressLow(0x5)),
            Sent::Cmd(Command::ColumnAddressHigh(0x0)),
            Sent::Data(vec![0x01, 0x01]),
            Sent::Cmd(Command::PageAddress(6)),
            Sent::Cmd(Command::ColumnAddressLow(0x5)),
            Sent::Cmd(Command::ColumnAddressHigh(0x0)),
            Sent::Data(vec![0x02, 0x02]),
        ]
    );
}

#[test]
fn tiled_clear_covers_every_page() {
    let mut mode = tiled();
    mode.clear(0x00).unwrap();
    let props = mode.release();
    let datas: Vec<&Vec<u8>> = props
        .iface
        .sent
        .iter()
        .filter_map(|s| match s {
            Sent::Data(d) => Some(d),
            _ => None,
        })
        .collect();
    assert_eq!(datas.len(), 8);
    assert!(datas.iter().all(|d| d.len() == 128 && d.iter().all(|&b| b == 0)));
}

#[test]
fn set_draw_area_and_draw_chunk_into_page_writes() {
    let mut props = DisplayProperties::new(
        Sh1106_128_64::variant(),
        RecordingSink::default(),
        DisplayRotation::Rotate0,
    );
    props.set_draw_area((10, 16), (14, 32));
    let buffer: Vec<u8> = (0u8..10).collect();
    props.draw(&buffer).unwrap();
    assert_eq!(
        props.iface.sent,
        vec![
            Sent::Cmd(Command::PageAddress(2)),
            Sent::Cmd(Command::ColumnAddressLow(0xC)),
            Sent::Cmd(Command::ColumnAddressHigh(0x0)),
            Sent::Data(vec![0, 1, 2, 3]),
            Sent::Cmd(Command::PageAddress(3)),
            Sent::Cmd(Command::ColumnAddressLow(0xC)),
            Sent::Cmd(Command::ColumnAddressHigh(0x0)),
            Sent::Data(vec![4, 5, 6, 7]),
            Sent::Cmd(Command::PageAddress(4)),
            Sent::Cmd(Command::ColumnAddressLow(0xC)),
            Sent::Cmd(Command::ColumnAddressHigh(0x0)),
            Sent::Data(vec![8, 9]),
        ]
    );
}

#[test]
fn large_page_addressing_uses_wide_command() {
    let variant = page_display::variant::Variant {
        width: 64,
        height: 128,
        column_offset: 0,
        large_page_address: true,
        init_sequence: Vec::new(),
    };
    let mut props =
        DisplayProperties::new(variant, RecordingSink::default(), DisplayRotation::Rotate0);
    props.draw_page(3, 1, &[0x55]).unwrap();
    assert_eq!(
        props.iface.sent,
        vec![
            Sent::Cmd(Command::LargePageAddress(3)),
            Sent::Cmd(Command::ColumnAddressLow(0x1)),
            Sent::Cmd(Command::ColumnAddressHigh(0x0)),
            Sent::Data(vec![0x55]),
        ]
    );
}

#[test]
fn variant_descriptor_values() {
    let v = Sh1106_128_64::variant();
    assert_eq!(v.width, 128);
    assert_eq!(v.height, 64);
    assert_eq!(v.column_offset, 2);
    assert!(!v.large_page_address);
}
