//! PS/2 mouse packets: the three-byte packet decoder fed from the interrupt
//! handler, and the cursor's confinement to the screen.
use vstd::prelude::*;

verus! {

/// One decoded mouse movement.
#[derive(Clone, Copy, Debug, PartialEq, Eq)]
pub struct MouseEvent {
    /// Horizontal movement, rightwards positive.
    pub dx: i32,
    /// Vertical movement in screen direction, downwards positive.
    pub dy: i32,
    /// Button state: bit 0 left, bit 1 right.
    pub buttons: u8,
}

/// A 9-bit two's-complement movement: the low 8 bits in `low`, the sign in the
/// packet's status byte.
pub open spec fn movement(low: u8, negative: bool) -> int {
    if negative {
        low - 256
    } else {
        low as int
    }
}

/// The event a complete packet (`state`, `x`, `y`) describes; the PS/2
/// y axis points up, so its sign is flipped.
pub open spec fn packet_event(state: u8, x: u8, y: u8) -> MouseEvent {
    MouseEvent {
        dx: movement(x, state & 0x10 != 0) as i32,
        dy: (-movement(y, state & 0x20 != 0)) as i32,
        buttons: state & 0x03,
    }
}

/// A packet's movements are the 9-bit two's-complement values whose low 8
/// bits are the X and Y bytes and whose sign bits are bits 4 (X) and 5 (Y)
/// of the status byte; the vertical one is turned to point down the screen.
/// The buttons are the status byte's two low bits.
pub proof fn lemma_packet_event(state: u8, x: u8, y: u8)
    ensures
        ({
            let e = packet_event(state, x, y);
            &&& -256 <= e.dx <= 255
            &&& e.dx % 256 == x
            &&& (e.dx < 0 <==> state & 0x10 != 0)
            &&& -255 <= e.dy <= 256
            &&& (-e.dy) % 256 == y
            &&& (e.dy > 0 <==> state & 0x20 != 0)
            &&& e.buttons == state % 4
        }),
{
    assert(state & 0x03 == state % 4) by (bit_vector);
}

/// Assembles three-byte packets from the byte stream of the PS/2 mouse.
pub struct MouseDecoder {
    cycle: u8,
    packet: [u8; 3],
}

impl MouseDecoder {
    /// How many bytes of the current packet have arrived.
    pub closed spec fn cycle(&self) -> u8 {
        self.cycle
    }

    /// The bytes of the current packet received so far.
    pub closed spec fn received(&self) -> Seq<u8> {
        self.packet@.take(self.cycle as int)
    }

    /// A decoder waiting for the first byte of a packet.
    pub fn new() -> (r: Self)
        ensures
            r.cycle() == 0,
    {
        MouseDecoder { cycle: 0, packet: [0u8; 3] }
    }

    /// Takes the next byte from the mouse. A first byte must have bit 3 set
    /// (it is dropped otherwise, resynchronising the stream); the third byte
    /// completes the packet, which is decoded (see `packet_event`).
    pub fn process_packet_byte(&mut self, byte: u8) -> (r: Option<MouseEvent>)
        ensures
            old(self).cycle() == 0 ==> {
                &&& r is None
                &&& byte & 0x08 != 0 ==> final(self).cycle() == 1 && final(self).received() == seq![byte]
                &&& byte & 0x08 == 0 ==> final(self).cycle() == 0
            },
            old(self).cycle() == 1 ==> {
                &&& r is None
                &&& final(self).cycle() == 2
                &&& final(self).received() == old(self).received().push(byte)
            },
            old(self).cycle() == 2 ==> {
                &&& r == Some(packet_event(old(self).received()[0], old(self).received()[1], byte))
                &&& final(self).cycle() == 0
            },
            old(self).cycle() > 2 ==> r is None && final(self).cycle() == 0,
    {
        if self.cycle == 0 {
            if (byte & 0x08) != 0 {
                self.packet[0] = byte;
                self.cycle = 1;
                assert(self.packet@.take(1) =~= seq![byte]);
            }
            None
        } else if self.cycle == 1 {
            self.packet[1] = byte;
            self.cycle = 2;
            assert(self.packet@.take(2) =~= old(self).packet@.take(1).push(byte));
            None
        } else if self.cycle == 2 {
            self.packet[2] = byte;
            let state = self.packet[0];
            let mut dx = self.packet[1] as i32;
            let mut dy = self.packet[2] as i32;
            let lo_x = self.packet[1];
            let lo_y = self.packet[2];
            assert((lo_x as i32) | !0xFFi32 == lo_x - 256 && (lo_y as i32) | !0xFFi32 == lo_y - 256 && state & (1u8
                << 4) == state & 0x10 && state & (1u8 << 5) == state & 0x20) by (bit_vector);
            if (state & (1u8 << 4)) != 0 {
                dx = dx | !0xFF;
            }
            if (state & (1u8 << 5)) != 0 {
                dy = dy | !0xFF;
            }
            dy = -dy;
            self.cycle = 0;
            Some(MouseEvent { dx, dy, buttons: state & 0x03 })
        } else {
            self.cycle = 0;
            None
        }
    }
}

/// The cursor position kept on screen: negative coordinates become 0, and a
/// coordinate at or past the screen edge is pulled back to 10 pixels before
/// the edge.
pub open spec fn clamp_spec(m: i32, limit: i32) -> i32 {
    let m1 = if m < 0 { 0 } else { m };
    if m1 >= limit {
        (limit - 10) as i32
    } else {
        m1
    }
}

/// The cursor stays on screen: on a screen at least 10 pixels across, a
/// position is kept where it is when it is on screen, and otherwise ends up
/// within the screen.
pub proof fn lemma_clamp_on_screen(m: i32, limit: i32)
    requires
        limit >= 10,
    ensures
        0 <= clamp_spec(m, limit) < limit,
        0 <= m < limit ==> clamp_spec(m, limit) == m,
        m < 0 ==> clamp_spec(m, limit) == 0,
{
}

/// Keeps the cursor at (`mx`, `my`) on a `width` x `height` screen (see
/// `clamp_spec`).
pub fn clamp_to_screen(mx: i32, my: i32, width: usize, height: usize) -> (r: (i32, i32))
    requires
        width as i32 >= i32::MIN + 10,
        height as i32 >= i32::MIN + 10,
    ensures
        r == (clamp_spec(mx, width as i32), clamp_spec(my, height as i32)),
{
    let mut x = mx;
    let mut y = my;
    if x < 0 {
        x = 0;
    }
    if y < 0 {
        y = 0;
    }
    if x >= width as i32 {
        x = width as i32 - 10;
    }
    if y >= height as i32 {
        y = height as i32 - 10;
    }
    (x, y)
}

} // verus!
