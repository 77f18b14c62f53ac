//! The protocol layer: rotation and draw-window state, addressing command
//! sequences, and streaming of pixel bytes to the abstract sink.

use vstd::prelude::*;
use vstd::slice::slice_subrange;
use vstd::arithmetic::div_mod::{
    lemma_div_is_ordered, lemma_div_plus_one, lemma_fundamental_div_mod,
    lemma_fundamental_div_mod_converse,
};
use vstd::arithmetic::mul::lemma_mul_is_distributive_add;
use crate::command::{Command, DisplayError};
use crate::interface::{DisplayInterface, SinkEvent};
use crate::rotation::DisplayRotation;
use crate::variant::Variant;

verus! {

/// The (segment-remap, reverse-common-direction) arguments that each
/// rotation is programmed with. Firmware behavior depends on this exact
/// mapping; it must never change.
pub open spec fn spec_rotation_pair(r: DisplayRotation) -> (bool, bool) {
    match r {
        DisplayRotation::Rotate0 => (true, true),
        DisplayRotation::Rotate90 => (false, true),
        DisplayRotation::Rotate180 => (false, false),
        DisplayRotation::Rotate270 => (true, false),
    }
}

/// The two orientation commands issued when a rotation is (re)applied.
pub open spec fn rotation_events(r: DisplayRotation) -> Seq<SinkEvent> {
    seq![
        SinkEvent::Command(Command::SegmentRemap(spec_rotation_pair(r).0)),
        SinkEvent::Command(Command::ReverseComDir(spec_rotation_pair(r).1)),
    ]
}

/// The page-select command in the encoding this variant expects.
pub open spec fn page_address_command(v: Variant, page: u8) -> Command {
    if v.large_page_address {
        Command::LargePageAddress(page)
    } else {
        Command::PageAddress(page)
    }
}

/// One page write as the sink sees it: the page-select command, the two
/// column-address nibbles (column offset already added), then the data.
pub open spec fn page_write_events(v: Variant, page: u8, start_col: u8, data: Seq<u8>) -> Seq<
    SinkEvent,
>
    recommends
        start_col as int + v.column_offset as int <= 255,
{
    let col = (start_col + v.column_offset) as u8;
    seq![
        SinkEvent::Command(page_address_command(v, page)),
        SinkEvent::Command(Command::ColumnAddressLow(col & 0x0F)),
        SinkEvent::Command(Command::ColumnAddressHigh((col >> 4) & 0x0F)),
        SinkEvent::Data(data),
    ]
}

/// A command table mapped to sink events.
pub open spec fn command_events(cmds: Seq<Command>) -> Seq<SinkEvent> {
    cmds.map_values(|c: Command| SinkEvent::Command(c))
}

/// What `draw` emits: `data` cut into `width`-byte chunks (the last chunk
/// may be short), one page write per chunk on consecutive pages.
pub open spec fn chunk_events(
    v: Variant,
    data: Seq<u8>,
    width: int,
    page: int,
    start_col: u8,
) -> Seq<SinkEvent>
    decreases data.len(),
    when width >= 1
{
    if data.len() == 0 {
        Seq::empty()
    } else if data.len() <= width {
        page_write_events(v, page as u8, start_col, data)
    } else {
        page_write_events(v, page as u8, start_col, data.take(width)) + chunk_events(
            v,
            data.skip(width),
            width,
            page + 1,
            start_col,
        )
    }
}

/// A journal only ever grows by appending.
pub proof fn lemma_concat_prefix(s: Seq<SinkEvent>, t: Seq<SinkEvent>)
    ensures
        s.is_prefix_of(s + t),
{
    assert(s =~= (s + t).subrange(0, s.len() as int));
}

/// Display properties: the variant descriptor, the transport, the current
/// rotation, the draw window, and a journal of accepted transmissions.
///
/// The journal records, in order, exactly the command values and data
/// buffers for which the sink returned `Ok`; every protocol operation
/// states below what it appends.
pub struct DisplayProperties<DI: DisplayInterface> {
    /// The controller/panel descriptor.
    pub variant: Variant,
    /// The command/data sink.
    pub iface: DI,
    /// Current display rotation.
    pub display_rotation: DisplayRotation,
    /// Draw window start, as (column, row).
    pub draw_area_start: (u8, u8),
    /// Draw window end, as (column, row).
    pub draw_area_end: (u8, u8),
    /// Journal of every transmission the sink accepted, in order.
    pub events: Ghost<Seq<SinkEvent>>,
}

impl<DI: DisplayInterface> DisplayProperties<DI> {
    /// Well-formedness: the variant descriptor is well-formed.
    pub open spec fn wf(self) -> bool {
        self.variant.wf()
    }

    /// Whether two states agree on everything but the sink and the journal.
    pub open spec fn same_config(self, other: Self) -> bool {
        &&& self.variant == other.variant
        &&& self.display_rotation == other.display_rotation
        &&& self.draw_area_start == other.draw_area_start
        &&& self.draw_area_end == other.draw_area_end
    }

    /// The dimensions as seen by the caller under the current rotation:
    /// width and height are exchanged at 90 and 270 degrees.
    pub open spec fn spec_dimensions(self) -> (u8, u8) {
        if self.display_rotation.spec_swaps_axes() {
            (self.variant.height, self.variant.width)
        } else {
            (self.variant.width, self.variant.height)
        }
    }

    /// Create a new properties object around a sink, with an empty draw
    /// window and an empty journal.
    pub fn new(variant: Variant, iface: DI, display_rotation: DisplayRotation) -> (r:
        DisplayProperties<DI>)
        requires
            variant.wf(),
        ensures
            r.wf(),
            r.variant == variant,
            r.display_rotation == display_rotation,
            r.draw_area_start == (0u8, 0u8),
            r.draw_area_end == (0u8, 0u8),
            r.events@ == Seq::<SinkEvent>::empty(),
    {
        DisplayProperties {
            variant,
            iface,
            display_rotation,
            draw_area_start: (0, 0),
            draw_area_end: (0, 0),
            events: Ghost(Seq::empty()),
        }
    }

    /// Send one command and journal it if the sink accepted it.
    fn send_command_logged(&mut self, cmd: Command) -> (r: Result<(), DisplayError>)
        ensures
            final(self).same_config(*old(self)),
            r is Ok ==> final(self).events@ == old(self).events@.push(SinkEvent::Command(cmd)),
            r is Err ==> final(self).events@ == old(self).events@,
    {
        match self.iface.send_command(cmd) {
            Ok(()) => {
                proof {
                    self.events@ = self.events@.push(SinkEvent::Command(cmd));
                }
                Ok(())
            },
            Err(e) => Err(e),
        }
    }

    /// Send a data buffer and journal it if the sink accepted it.
    fn send_data_logged(&mut self, buf: &[u8]) -> (r: Result<(), DisplayError>)
        ensures
            final(self).same_config(*old(self)),
            r is Ok ==> final(self).events@ == old(self).events@.push(SinkEvent::Data(buf@)),
            r is Err ==> final(self).events@ == old(self).events@,
    {
        match self.iface.send_data(buf) {
            Ok(()) => {
                proof {
                    self.events@ = self.events@.push(SinkEvent::Data(buf@));
                }
                Ok(())
            },
            Err(e) => Err(e),
        }
    }

    /// Run the variant's initialization table, then reapply the current
    /// rotation, so the panel is in column mode with the configured
    /// orientation.
    #[verifier::loop_isolation(false)]
    pub fn init_column_mode(&mut self) -> (r: Result<(), DisplayError>)
        requires
            old(self).wf(),
        ensures
            final(self).wf(),
            final(self).same_config(*old(self)),
            r is Ok ==> final(self).events@ == old(self).events@ + command_events(
                old(self).variant.init_sequence@,
            ) + rotation_events(old(self).display_rotation),
            r is Err ==> old(self).events@.is_prefix_of(final(self).events@),
    {
        let ghost pre = *old(self);
        let n = self.variant.init_sequence.len();
        let mut i: usize = 0;
        while i < n
            invariant
                self.same_config(pre),
                self.wf(),
                i <= n,
                self.events@ == pre.events@ + command_events(pre.variant.init_sequence@.take(
                    i as int,
                )),
            decreases n - i,
        {
            let cmd = self.variant.init_sequence[i];
            match self.send_command_logged(cmd) {
                Ok(()) => {},
                Err(e) => {
                    proof {
                        lemma_concat_prefix(
                            pre.events@,
                            command_events(pre.variant.init_sequence@.take(i as int)),
                        );
                    }
                    return Err(e);
                },
            }
            proof {
                assert(self.events@ =~= pre.events@ + command_events(
                    pre.variant.init_sequence@.take(i as int + 1),
                ));
            }
            i = i + 1;
        }
        proof {
            assert(pre.variant.init_sequence@.take(n as int) =~= pre.variant.init_sequence@);
        }
        let rot = self.display_rotation;
        let r = self.set_rotation(rot);
        proof {
            if r is Ok {
                assert(self.events@ =~= pre.events@ + command_events(pre.variant.init_sequence@)
                    + rotation_events(pre.display_rotation));
            } else {
                lemma_concat_prefix(pre.events@, command_events(pre.variant.init_sequence@));
                let mid = pre.events@ + command_events(pre.variant.init_sequence@);
                assert(pre.events@ =~= self.events@.subrange(0, pre.events@.len() as int));
            }
        }
        r
    }

    /// Record the draw window for a following `draw`.
    pub fn set_draw_area(&mut self, start: (u8, u8), end: (u8, u8))
        ensures
            final(self).variant == old(self).variant,
            final(self).display_rotation == old(self).display_rotation,
            final(self).iface == old(self).iface,
            final(self).events@ == old(self).events@,
            final(self).draw_area_start == start,
            final(self).draw_area_end == end,
    {
        self.draw_area_start = start;
        self.draw_area_end = end;
    }

    /// Stream a buffer through the recorded draw window: the buffer is cut
    /// into window-width chunks and each chunk becomes one page write on
    /// consecutive pages.
    #[verifier::loop_isolation(false)]
    pub fn draw(&mut self, buffer: &[u8]) -> (r: Result<(), DisplayError>)
        requires
            old(self).wf(),
            old(self).draw_area_start.0 < old(self).draw_area_end.0,
            old(self).draw_area_start.0 as int + old(self).variant.column_offset as int <= 255,
            old(self).draw_area_start.1 as int / 8 + (buffer@.len() + (old(self).draw_area_end.0
                - old(self).draw_area_start.0) as int - 1) / ((old(self).draw_area_end.0 - old(
                self,
            ).draw_area_start.0) as int) <= 256,
        ensures
            final(self).wf(),
            final(self).same_config(*old(self)),
            r is Ok ==> final(self).events@ == old(self).events@ + chunk_events(
                old(self).variant,
                buffer@,
                (old(self).draw_area_end.0 - old(self).draw_area_start.0) as int,
                old(self).draw_area_start.1 as int / 8,
                old(self).draw_area_start.0,
            ),
            r is Err ==> old(self).events@.is_prefix_of(final(self).events@),
    {
        let ghost pre = *old(self);
        let width = self.draw_area_end.0 - self.draw_area_start.0;
        let base_page = self.draw_area_start.1 / 8;
        let start_col = self.draw_area_start.0;
        let ghost w = width as int;
        let ghost nlen = buffer@.len() as int;
        let mut offset: usize = 0;
        let mut page: u8 = base_page;
        proof {
            assert(buffer@.skip(0) =~= buffer@);
        }
        while offset < buffer.len()
            invariant
                self.wf(),
                self.same_config(pre),
                offset <= buffer.len(),
                offset < buffer.len() ==> offset as int % (width as int) == 0 && page as int
                    == base_page as int + offset as int / (width as int) && page as int <= 255,
                pre.events@.is_prefix_of(self.events@),
                pre.events@ + chunk_events(pre.variant, buffer@, w, base_page as int, start_col)
                    == self.events@ + chunk_events(
                    pre.variant,
                    buffer@.skip(offset as int),
                    w,
                    page as int,
                    start_col,
                ),
            decreases buffer.len() - offset,
        {
            let rem = buffer.len() - offset;
            let chunk_len = if rem < width as usize {
                rem
            } else {
                width as usize
            };
            let chunk = slice_subrange(buffer, offset, offset + chunk_len);
            let ghost tail = buffer@.skip(offset as int);
            let ghost before = self.events@;
            match self.draw_page(page, start_col, chunk) {
                Ok(()) => {},
                Err(e) => {
                    proof {
                        let pw = page_write_events(pre.variant, page, start_col, chunk@);
                        let k = choose|k: int|
                            0 <= k < 4 && self.events@ == before + pw.take(k);
                        assert(self.events@ == before + pw.take(k));
                        assert(pre.events@ =~= self.events@.subrange(0, pre.events@.len() as int));
                    }
                    return Err(e);
                },
            }
            proof {
                let pw = page_write_events(pre.variant, page, start_col, chunk@);
                assert(pre.events@ =~= self.events@.subrange(0, pre.events@.len() as int));
                if rem <= w {
                    assert(chunk@ =~= tail);
                    assert(chunk_events(pre.variant, tail, w, page as int, start_col) == pw);
                    assert(buffer@.skip(offset as int + chunk_len as int) =~= Seq::<u8>::empty());
                    assert((before + pw) + chunk_events(
                        pre.variant,
                        buffer@.skip(offset as int + chunk_len as int),
                        w,
                        page as int + 1,
                        start_col,
                    ) =~= before + pw);
                    assert(pre.events@ + chunk_events(
                        pre.variant,
                        buffer@,
                        w,
                        base_page as int,
                        start_col,
                    ) =~= self.events@ + chunk_events(
                        pre.variant,
                        buffer@.skip(offset as int + chunk_len as int),
                        w,
                        page as int + 1,
                        start_col,
                    ));
                } else {
                    assert(chunk@ =~= tail.take(w));
                    assert(tail.skip(w) =~= buffer@.skip(offset as int + chunk_len as int));
                    assert(chunk_events(pre.variant, tail, w, page as int, start_col) == pw
                        + chunk_events(
                        pre.variant,
                        tail.skip(w),
                        w,
                        page as int + 1,
                        start_col,
                    ));
                    assert(before + (pw + chunk_events(
                        pre.variant,
                        tail.skip(w),
                        w,
                        page as int + 1,
                        start_col,
                    )) =~= (before + pw) + chunk_events(
                        pre.variant,
                        tail.skip(w),
                        w,
                        page as int + 1,
                        start_col,
                    ));
                }
                // page/offset bookkeeping for a continuing iteration
                if offset + chunk_len < buffer.len() {
                    lemma_fundamental_div_mod(offset as int, w);
                    lemma_mul_is_distributive_add(w, offset as int / w, 1);
                    lemma_fundamental_div_mod_converse(
                        offset as int + w,
                        w,
                        offset as int / w + 1,
                        0,
                    );
                    lemma_div_is_ordered(offset as int + w, nlen - 1, w);
                    lemma_div_plus_one(nlen - 1, w);
                }
            }
            offset = offset + chunk_len;
            if offset < buffer.len() {
                page = page + 1;
            }
        }
        proof {
            assert(buffer@.skip(buffer@.len() as int) =~= Seq::<u8>::empty());
            assert(pre.events@ + chunk_events(pre.variant, buffer@, w, base_page as int, start_col)
                =~= self.events@);
        }
        Ok(())
    }

    /// Write one page's bytes at `page_addr`, starting at screen column
    /// `start_col`: three addressing commands (the column offset added to
    /// the column, split into nibbles), then one data transfer.
    pub fn draw_page(&mut self, page_addr: u8, start_col: u8, buf: &[u8]) -> (r: Result<
        (),
        DisplayError,
    >)
        requires
            old(self).wf(),
            start_col as int + old(self).variant.column_offset as int <= 255,
        ensures
            final(self).wf(),
            final(self).same_config(*old(self)),
            r is Ok ==> final(self).events@ == old(self).events@ + page_write_events(
                old(self).variant,
                page_addr,
                start_col,
                buf@,
            ),
            r is Err ==> exists|k: int|
                0 <= k < 4 && final(self).events@ == old(self).events@ + page_write_events(
                    old(self).variant,
                    page_addr,
                    start_col,
                    buf@,
                ).take(k),
    {
        let ghost pre = *old(self);
        let ghost pw = page_write_events(pre.variant, page_addr, start_col, buf@);
        let col = start_col + self.variant.column_offset;
        let cmd0 = if self.variant.large_page_address {
            Command::LargePageAddress(page_addr)
        } else {
            Command::PageAddress(page_addr)
        };
        match self.send_command_logged(cmd0) {
            Ok(()) => {},
            Err(e) => {
                proof {
                    assert(self.events@ =~= pre.events@ + pw.take(0));
                }
                return Err(e);
            },
        }
        match self.send_command_logged(Command::ColumnAddressLow(col & 0x0F)) {
            Ok(()) => {},
            Err(e) => {
                proof {
                    assert(self.events@ =~= pre.events@ + pw.take(1));
                }
                return Err(e);
            },
        }
        match self.send_command_logged(Command::ColumnAddressHigh((col >> 4) & 0x0F)) {
            Ok(()) => {},
            Err(e) => {
                proof {
                    assert(self.events@ =~= pre.events@ + pw.take(2));
                }
                return Err(e);
            },
        }
        match self.send_data_logged(buf) {
            Ok(()) => {
                proof {
                    assert(self.events@ =~= pre.events@ + pw);
                }
                Ok(())
            },
            Err(e) => {
                proof {
                    assert(self.events@ =~= pre.events@ + pw.take(3));
                }
                Err(e)
            },
        }
    }

    /// The caller-facing dimensions, width and height exchanged at 90 and
    /// 270 degrees.
    pub fn get_dimensions(&self) -> (r: (u8, u8))
        ensures
            r == self.spec_dimensions(),
    {
        match self.display_rotation {
            DisplayRotation::Rotate0 | DisplayRotation::Rotate180 => (
                self.variant.width,
                self.variant.height,
            ),
            DisplayRotation::Rotate90 | DisplayRotation::Rotate270 => (
                self.variant.height,
                self.variant.width,
            ),
        }
    }

    /// The current rotation.
    pub fn get_rotation(&self) -> (r: DisplayRotation)
        ensures
            r == self.display_rotation,
    {
        self.display_rotation
    }

    /// Set the rotation, recording it and issuing the two orientation
    /// commands for it. The recorded rotation changes even when the sink
    /// fails, so a retry reapplies it.
    pub fn set_rotation(&mut self, display_rotation: DisplayRotation) -> (r: Result<
        (),
        DisplayError,
    >)
        requires
            old(self).wf(),
        ensures
            final(self).wf(),
            final(self).variant == old(self).variant,
            final(self).draw_area_start == old(self).draw_area_start,
            final(self).draw_area_end == old(self).draw_area_end,
            final(self).display_rotation == display_rotation,
            r is Ok ==> final(self).events@ == old(self).events@ + rotation_events(
                display_rotation,
            ),
            r is Err ==> exists|k: int|
                0 <= k < 2 && final(self).events@ == old(self).events@ + rotation_events(
                    display_rotation,
                ).take(k),
    {
        let ghost pre = *old(self);
        let ghost ev = rotation_events(display_rotation);
        self.display_rotation = display_rotation;
        let (remap, reverse): (bool, bool) = match display_rotation {
            DisplayRotation::Rotate0 => (true, true),
            DisplayRotation::Rotate90 => (false, true),
            DisplayRotation::Rotate180 => (false, false),
            DisplayRotation::Rotate270 => (true, false),
        };
        match self.send_command_logged(Command::SegmentRemap(remap)) {
            Ok(()) => {},
            Err(e) => {
                proof {
                    assert(self.events@ =~= pre.events@ + ev.take(0));
                }
                return Err(e);
            },
        }
        match self.send_command_logged(Command::ReverseComDir(reverse)) {
            Ok(()) => {
                proof {
                    assert(self.events@ =~= pre.events@ + ev);
                }
                Ok(())
            },
            Err(e) => {
                proof {
                    assert(self.events@ =~= pre.events@ + ev.take(1));
                }
                Err(e)
            },
        }
    }

    /// Turn the display on or off. Its memory is kept while off.
    pub fn display_on(&mut self, on: bool) -> (r: Result<(), DisplayError>)
        requires
            old(self).wf(),
        ensures
            final(self).wf(),
            final(self).same_config(*old(self)),
            r is Ok ==> final(self).events@ == old(self).events@.push(
                SinkEvent::Command(Command::DisplayOn(on)),
            ),
            r is Err ==> final(self).events@ == old(self).events@,
    {
        self.send_command_logged(Command::DisplayOn(on))
    }

    /// Set the display contrast.
    pub fn set_contrast(&mut self, contrast: u8) -> (r: Result<(), DisplayError>)
        requires
            old(self).wf(),
        ensures
            final(self).wf(),
            final(self).same_config(*old(self)),
            r is Ok ==> final(self).events@ == old(self).events@.push(
                SinkEvent::Command(Command::Contrast(contrast)),
            ),
            r is Err ==> final(self).events@ == old(self).events@,
    {
        self.send_command_logged(Command::Contrast(contrast))
    }
}

/// Changing the rotation and later restoring it restores the caller-facing
/// dimensions and the logical-to-physical mapping of every coordinate: the
/// rotation field is the only orientation state there is.
pub proof fn lemma_rotation_round_trip<DI: DisplayInterface>(
    p0: DisplayProperties<DI>,
    p1: DisplayProperties<DI>,
    p2: DisplayProperties<DI>,
)
    requires
        p1.variant == p0.variant,
        p2.variant == p1.variant,
        p2.display_rotation == p0.display_rotation,
    ensures
        p2.spec_dimensions() == p0.spec_dimensions(),
        forall|x: u32, y: u32| #[trigger] p2.display_rotation.spec_transform(x, y)
            == p0.display_rotation.spec_transform(x, y),
{
}

} // verus!
