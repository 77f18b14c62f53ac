use page_display::command::{Command, DisplayError};
use page_display::dirty::DirtyRegion;
use page_display::graphics::GraphicsMode;
use page_display::interface::DisplayInterface;
use page_display::properties::DisplayProperties;
use page_display::rect::Rect;
use page_display::rotation::DisplayRotation;
use page_display::variant::Sh1106_128_64;

#[derive(Debug, Clone, PartialEq)]
enum Sent {
    Cmd(Command),
    Data(Vec<u8>),
}

#[derive(Default)]
struct RecordingSink {
    sent: Vec<Sent>,
    fail_after: Option<usize>,
}

impl DisplayInterface for RecordingSink {
    fn send_command(&mut self, cmd: Command) -> Result<(), DisplayError> {
        if let Some(n) = self.fail_after {
            if self.sent.len() >= n {
                return Err(DisplayError);
            }
        }
        self.sent.push(Sent::Cmd(cmd));
        Ok(())
    }

    fn send_data(&mut self, buf: &[u8]) -> Result<(), DisplayError> {
        if let Some(n) = self.fail_after {
            if self.sent.len() >= n {
                return Err(DisplayError);
            }
        }
        self.sent.push(Sent::Data(buf.to_vec()));
        Ok(())
    }
}

fn display(rot: DisplayRotation) -> GraphicsMode<RecordingSink> {
    let props = DisplayProperties::new(
        Sh1106_128_64::variant(),
        RecordingSink::default(),
        rot,
    );
    GraphicsMode::new(props)
}

#[test]
fn construction_invariant_and_initial_dirty() {
    let disp = display(DisplayRotation::Rotate0);
    assert_eq!(disp.plane.bytes.len(), 128 * 64 / 8);
    // the whole screen starts dirty, so the first flush sends all of it
    assert_eq!(
        disp.dirty,
        DirtyRegion::Span { min_x: 0, min_y: 0, max_x: 127, max_y: 63 }
    );
}

#[test]
fn set_pixel_writes_expected_byte() {
    let mut disp = display(DisplayRotation::Rotate0);
    disp.clear();
    disp.set_pixel(5, 10, 1);
    let idx = (10 / 8) * 128 + 5;
    assert_eq!(disp.plane.bytes[idx], 1 << (10 % 8));
    assert_eq!(disp.plane.bytes.iter().filter(|&&b| b != 0).count(), 1);
    assert_eq!(disp.get_pixel(5, 10), Some(true));
}

#[test]
fn set_pixel_round_trip_leaves_zero() {
    let mut disp = display(DisplayRotation::Rotate0);
    disp.clear();
    disp.set_pixel(40, 33, 1);
    disp.set_pixel(41, 33, 1);
    disp.set_pixel(40, 33, 0);
    assert_eq!(disp.get_pixel(40, 33), Some(false));
    assert_eq!(disp.get_pixel(41, 33), Some(true));
}

#[test]
fn out_of_bounds_set_pixel_is_noop() {
    let mut disp = display(DisplayRotation::Rotate0);
    disp.clear();
    let dirty_before = disp.dirty;
    disp.set_pixel(128, 0, 1);
    disp.set_pixel(0, 64, 1);
    assert!(disp.plane.bytes.iter().all(|&b| b == 0));
    assert_eq!(disp.dirty, dirty_before);
    assert_eq!(disp.get_pixel(128, 0), None);
}

#[test]
fn rotated_set_pixel_swaps_axes() {
    let mut disp = display(DisplayRotation::Rotate90);
    disp.clear();
    // logical (x, y) lands at physical (y, x)
    disp.set_pixel(10, 5, 1);
    let idx = (10 / 8) * 128 + 5;
    assert_eq!(disp.plane.bytes[idx], 1 << (10 % 8));
    assert_eq!(disp.get_pixel(10, 5), Some(true));
}

#[test]
fn dimensions_follow_rotation() {
    let mut disp = display(DisplayRotation::Rotate0);
    assert_eq!(disp.get_dimensions(), (128, 64));
    disp.set_rotation(DisplayRotation::Rotate90).unwrap();
    assert_eq!(disp.get_dimensions(), (64, 128));
    disp.set_rotation(DisplayRotation::Rotate180).unwrap();
    assert_eq!(disp.get_dimensions(), (128, 64));
    disp.set_rotation(DisplayRotation::Rotate270).unwrap();
    assert_eq!(disp.get_dimensions(), (64, 128));
}

#[test]
fn rotation_round_trip_restores_dimensions_and_mapping() {
    for &r in &[
        DisplayRotation::Rotate0,
        DisplayRotation::Rotate90,
        DisplayRotation::Rotate180,
        DisplayRotation::Rotate270,
    ] {
        let mut disp = display(DisplayRotation::Rotate0);
        disp.clear();
        let dims_before = disp.get_dimensions();
        disp.set_pixel(0, 0, 1);
        let bytes_before = disp.plane.bytes.clone();

        disp.set_rotation(r).unwrap();
        disp.set_rotation(DisplayRotation::Rotate0).unwrap();

        assert_eq!(disp.get_dimensions(), dims_before);
        assert_eq!(disp.get_rotation(), DisplayRotation::Rotate0);
        disp.set_pixel(0, 0, 1);
        assert_eq!(disp.plane.bytes, bytes_before);
    }
}

#[test]
fn rotation_command_mapping_is_exact() {
    let cases = [
        (DisplayRotation::Rotate0, true, true),
        (DisplayRotation::Rotate90, false, true),
        (DisplayRotation::Rotate180, false, false),
        (DisplayRotation::Rotate270, true, false),
    ];
    for &(rot, remap, reverse) in &cases {
        let mut disp = display(DisplayRotation::Rotate0);
        disp.set_rotation(rot).unwrap();
        let props = disp.release();
        assert_eq!(
            props.iface.sent,
            vec![
                Sent::Cmd(Command::SegmentRemap(remap)),
                Sent::Cmd(Command::ReverseComDir(reverse)),
            ]
        );
    }
}

#[test]
fn fill_solid_readback_all_alignments() {
    // aligned, top partial, bottom partial, both, and within a single page
    let rects = [
        (4, 8, 20, 16),
        (0, 3, 8, 5),
        (0, 8, 8, 5),
        (1, 5, 6, 14),
        (2, 9, 4, 3),
    ];
    for &(x, y, w, h) in &rects {
        for &on in &[true, false] {
            let mut disp = display(DisplayRotation::Rotate0);
            disp.clear();
            if !on {
                disp.fill_solid(&Rect::new(0, 0, 128, 64), true);
            }
            disp.fill_solid(&Rect::new(x, y, w, h), on);
            for px in 0..128u32 {
                for py in 0..64u32 {
                    let inside = (x as u32..x as u32 + w).contains(&px)
                        && (y as u32..y as u32 + h).contains(&py);
                    let expect = if inside { on } else { !on };
                    assert_eq!(disp.get_pixel(px, py), Some(expect), "({px},{py})");
                }
            }
        }
    }
}

#[test]
fn fill_solid_clips_to_screen() {
    let mut disp = display(DisplayRotation::Rotate0);
    disp.clear();
    disp.fill_solid(&Rect::new(-5, -7, 10, 12), true);
    for px in 0..128u32 {
        for py in 0..64u32 {
            let expect = px < 5 && py < 5;
            assert_eq!(disp.get_pixel(px, py), Some(expect));
        }
    }
    // fully outside: a no-op that leaves the dirty region alone
    let dirty_before = disp.dirty;
    disp.fill_solid(&Rect::new(200, 200, 5, 5), true);
    assert_eq!(disp.dirty, dirty_before);
}

#[test]
fn dirty_region_grows_monotonically() {
    let mut fresh = display(DisplayRotation::Rotate0);
    // start from a flushed (empty) dirty region
    fresh.flush().unwrap();
    assert_eq!(fresh.dirty, DirtyRegion::Empty);

    fresh.set_pixel(10, 20, 1);
    assert_eq!(
        fresh.dirty,
        DirtyRegion::Span { min_x: 10, min_y: 20, max_x: 10, max_y: 20 }
    );
    fresh.set_pixel(5, 30, 1);
    assert_eq!(
        fresh.dirty,
        DirtyRegion::Span { min_x: 5, min_y: 20, max_x: 10, max_y: 30 }
    );
    fresh.fill_solid(&Rect::new(50, 1, 4, 4), true);
    assert_eq!(
        fresh.dirty,
        DirtyRegion::Span { min_x: 5, min_y: 1, max_x: 53, max_y: 30 }
    );
}

#[test]
fn flush_after_clear_sends_whole_screen() {
    let mut disp = display(DisplayRotation::Rotate0);
    disp.clear();
    disp.flush().unwrap();
    let props = disp.release();
    let datas: Vec<&Vec<u8>> = props
        .iface
        .sent
        .iter()
        .filter_map(|s| match s {
            Sent::Data(d) => Some(d),
            _ => None,
        })
        .collect();
    // one page write per page, each exactly width bytes
    assert_eq!(datas.len(), 64 / 8);
    assert!(datas.iter().all(|d| d.len() == 128));
}

#[test]
fn flush_sends_only_dirty_columns_with_offset() {
    let mut disp = display(DisplayRotation::Rotate0);
    disp.clear();
    disp.flush().unwrap();
    disp.set_pixel(5, 10, 1);
    disp.set_pixel(9, 11, 1);
    disp.flush().unwrap();
    let props = disp.release();
    let tail = &props.iface.sent[props.iface.sent.len() - 4..];
    // SH1106 column offset 2: column 5 is transmitted as 7
    assert_eq!(tail[0], Sent::Cmd(Command::PageAddress(1)));
    assert_eq!(tail[1], Sent::Cmd(Command::ColumnAddressLow(0x7)));
    assert_eq!(tail[2], Sent::Cmd(Command::ColumnAddressHigh(0x0)));
    assert_eq!(
        tail[3],
        Sent::Data(vec![1 << 2, 0, 0, 0, 1 << 3])
    );
}

#[test]
fn second_flush_sends_nothing() {
    let mut disp = display(DisplayRotation::Rotate0);
    disp.clear();
    disp.flush().unwrap();
    assert_eq!(disp.dirty, DirtyRegion::Empty);
    let count = {
        let props = &disp.properties;
        props.iface.sent.len()
    };
    disp.flush().unwrap();
    assert_eq!(disp.dirty, DirtyRegion::Empty);
    assert_eq!(disp.properties.iface.sent.len(), count);
}

#[test]
fn transport_failure_surfaces_and_keeps_dirty() {
    let mut sink = RecordingSink::default();
    sink.fail_after = Some(2);
    let props = DisplayProperties::new(Sh1106_128_64::variant(), sink, DisplayRotation::Rotate0);
    let mut disp = GraphicsMode::new(props);
    let dirty_before = disp.dirty;
    assert_eq!(disp.flush(), Err(DisplayError));
    assert_eq!(disp.dirty, dirty_before);
    assert_eq!(disp.set_contrast(0x40), Err(DisplayError));
    assert_eq!(disp.display_on(true), Err(DisplayError));
}

#[test]
fn display_on_and_contrast_are_single_commands() {
    let mut disp = display(DisplayRotation::Rotate0);
    disp.display_on(true).unwrap();
    disp.set_contrast(0x7F).unwrap();
    disp.display_on(false).unwrap();
    let props = disp.release();
    assert_eq!(
        props.iface.sent,
        vec![
            Sent::Cmd(Command::DisplayOn(true)),
            Sent::Cmd(Command::Contrast(0x7F)),
            Sent::Cmd(Command::DisplayOn(false)),
        ]
    );
}

#[test]
fn release_and_rewrap_keeps_rotation() {
    let mut disp = display(DisplayRotation::Rotate0);
    disp.set_rotation(DisplayRotation::Rotate90).unwrap();
    let props = disp.release();
    let tiled = page_display::tiled::TiledMode::new(props);
    let props = tiled.release();
    assert_eq!(props.get_rotation(), DisplayRotation::Rotate90);
    let disp = GraphicsMode::new(props);
    assert_eq!(disp.get_dimensions(), (64, 128));
}

#[test]
fn init_runs_table_then_rotation() {
    let mut disp = display(DisplayRotation::Rotate180);
    disp.init().unwrap();
    let props = disp.release();
    assert_eq!(
        props.iface.sent,
        vec![
            Sent::Cmd(Command::DisplayOffset(0)),
            Sent::Cmd(Command::ComPinConfig(true)),
            Sent::Cmd(Command::SegmentRemap(false)),
            Sent::Cmd(Command::ReverseComDir(false)),
        ]
    );
}
