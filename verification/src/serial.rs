//! The 16550 serial port: the register writes that set it up and the bytes
//! sent for a piece of text (each line feed preceded by a carriage return).
use vstd::prelude::*;

verus! {

/// The first serial port's I/O base.
pub const COM1: u16 = 0x3F8;

/// A serial port by its I/O base.
#[derive(Clone, Copy, PartialEq, Eq, Structural)]
pub struct SerialPort {
    pub port: u16,
}

/// Text as sent on the line: "\n" becomes "\r\n".
pub open spec fn line_bytes(s: Seq<u8>) -> Seq<u8>
    decreases s.len(),
{
    if s.len() == 0 {
        seq![]
    } else {
        let head = if s[0] == 10 { seq![13u8, 10u8] } else { seq![s[0]] };
        head + line_bytes(s.drop_first())
    }
}

impl SerialPort {
    pub fn new(port: u16) -> (p: Self)
        ensures
            p.port == port,
    {
        SerialPort { port }
    }

    /// The (port, value) writes that set the line up: interrupts off,
    /// divisor 3 (38400 baud), 8 bits without parity and one stop bit,
    /// FIFOs on, RTS/DSR and the interrupt line on.
    pub fn init_writes(&self) -> (w: Vec<(u16, u8)>)
        requires
            self.port + 4 <= u16::MAX,
        ensures
            w@ == seq![
                ((self.port + 1) as u16, 0x00u8),
                ((self.port + 3) as u16, 0x80u8),
                (self.port, 0x03u8),
                ((self.port + 1) as u16, 0x00u8),
                ((self.port + 3) as u16, 0x03u8),
                ((self.port + 2) as u16, 0xC7u8),
                ((self.port + 4) as u16, 0x0Bu8),
            ],
    {
        let p = self.port;
        let w: Vec<(u16, u8)> = vec![(p + 1, 0x00u8), (p + 3, 0x80u8), (p, 0x03u8), (p + 1, 0x00u8), (p + 3, 0x03u8), (p + 2, 0xC7u8), (p + 4, 0x0Bu8)];
        w
    }

    /// The line-status register's port.
    pub fn line_status_port(&self) -> (p: u16)
        requires
            self.port + 5 <= u16::MAX,
        ensures
            p == self.port + 5,
    {
        self.port + 5
    }

    /// Whether the line status says the transmitter can take a byte.
    pub fn transmit_ready(status: u8) -> (b: bool)
        ensures
            b == (status & 0x20 != 0),
    {
        status & 0x20 != 0
    }

    /// The bytes sent for `s`.
    pub fn write_bytes(s: &str) -> (b: Vec<u8>)
        ensures
            b@ == line_bytes(vstd::utf8::encode_utf8(s@)),
    {
        let bytes = s.as_bytes();
        let mut out: Vec<u8> = Vec::new();
        let mut i: usize = 0;
        assert(bytes@.subrange(0, bytes@.len() as int) =~= bytes@);
        assert(out@ + line_bytes(bytes@) =~= line_bytes(bytes@));
        while i < bytes.len()
            invariant
                i <= bytes@.len(),
                out@ + line_bytes(bytes@.subrange(i as int, bytes@.len() as int)) == line_bytes(bytes@),
            decreases bytes@.len() - i,
        {
            let ghost rest = bytes@.subrange(i as int, bytes@.len() as int);
            assert(rest.drop_first() =~= bytes@.subrange(i + 1, bytes@.len() as int));
            let ghost before = out@;
            if bytes[i] == 10 {
                out.push(13);
            }
            out.push(bytes[i]);
            i = i + 1;
            assert(before + line_bytes(rest) =~= out@ + line_bytes(bytes@.subrange(i as int, bytes@.len() as int)));
        }
        assert(bytes@.subrange(bytes@.len() as int, bytes@.len() as int) =~= Seq::<u8>::empty());
        assert(out@ + Seq::<u8>::empty() =~= out@);
        out
    }
}

} // verus!
