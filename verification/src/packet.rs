//! The wire buffer that carries one request or one response.
//!
//! A packet is a run of bytes with a cursor. The cursor marks one header, the
//! current one; what follows that header is the payload. Interpreting the
//! front of the payload as a header moves the cursor deeper into the packet,
//! and deparsing moves it back out, in both cases without copying a byte.

use vstd::prelude::*;

verus! {

/// What a packet is, mathematically: its bytes, where the current header and
/// the payload start, and how many bytes the buffer can hold.
pub struct PacketView {
    pub bytes: Seq<u8>,
    pub header: int,
    pub payload: int,
    pub limit: int,
}

impl PacketView {
    /// The cursor lies inside the bytes and the bytes fit the buffer.
    pub open spec fn wf(self) -> bool {
        0 <= self.header <= self.payload <= self.bytes.len() <= self.limit <= u32::MAX
    }

    /// The bytes of the current header.
    pub open spec fn header_bytes(self) -> Seq<u8> {
        self.bytes.subrange(self.header, self.payload)
    }

    /// The size of the current header.
    pub open spec fn header_len(self) -> int {
        self.payload - self.header
    }

    /// The bytes that follow the current header.
    pub open spec fn payload_bytes(self) -> Seq<u8> {
        self.bytes.subrange(self.payload, self.bytes.len() as int)
    }

    /// How many more bytes the buffer can take.
    pub open spec fn room(self) -> int {
        self.limit - self.bytes.len()
    }

    /// The packet with the first `size` bytes of its payload as the current
    /// header.
    pub open spec fn parsed(self, size: int) -> PacketView {
        PacketView { header: self.payload, payload: self.payload + size, ..self }
    }

    /// The packet with `header` inserted in front of its payload and made the
    /// current header.
    pub open spec fn pushed(self, header: Seq<u8>) -> PacketView {
        PacketView {
            bytes: self.bytes.subrange(0, self.payload) + header + self.payload_bytes(),
            header: self.payload,
            payload: self.payload + header.len(),
            limit: self.limit,
        }
    }

    /// The packet with the `size` bytes in front of the current header as the
    /// current header, and everything after them as payload.
    pub open spec fn deparsed(self, size: int) -> PacketView {
        PacketView { header: self.header - size, payload: self.header, ..self }
    }

    /// The packet with `data` added at the end of its payload.
    pub open spec fn appended(self, data: Seq<u8>) -> PacketView {
        PacketView { bytes: self.bytes + data, ..self }
    }

    /// The packet with `field` written over the current header from offset
    /// `at` on.
    pub open spec fn overwritten(self, at: int, field: Seq<u8>) -> PacketView {
        PacketView {
            bytes: self.bytes.subrange(0, self.header + at) + field + self.bytes.subrange(
                self.header + at + field.len(),
                self.bytes.len() as int,
            ),
            ..self
        }
    }
}

/// Why a packet could not be extended.
#[derive(Clone, Copy, Debug, PartialEq, Eq, Structural)]
pub enum PacketError {
    /// The buffer cannot hold the bytes that were to be added.
    FailedAllocation,
}

/// A bounded byte buffer with a cursor on its current header.
#[derive(Debug)]
pub struct Packet {
    buf: Vec<u8>,
    limit: usize,
    header: usize,
    payload: usize,
}

impl View for Packet {
    type V = PacketView;

    closed spec fn view(&self) -> PacketView {
        PacketView {
            bytes: self.buf@,
            header: self.header as int,
            payload: self.payload as int,
            limit: self.limit as int,
        }
    }
}

impl Packet {
    /// The invariant of every packet that this module hands out.
    pub open spec fn wf(&self) -> bool {
        self@.wf()
    }

    /// An empty packet that can grow to `limit` bytes. Its cursor stands at
    /// the start, on a header of no bytes.
    pub fn new(limit: u32) -> (packet: Packet)
        ensures
            packet.wf(),
            packet@ == (PacketView { bytes: Seq::empty(), header: 0, payload: 0, limit: limit as int }),
    {
        Packet { buf: Vec::new(), limit: limit as usize, header: 0, payload: 0 }
    }

    /// Every byte of the packet, from the first header on.
    pub fn data(&self) -> (data: &[u8])
        ensures
            data@ == self@.bytes,
    {
        self.buf.as_slice()
    }

    /// Where the current header starts.
    pub fn header_offset(&self) -> (offset: usize)
        ensures
            offset == self@.header,
    {
        self.header
    }

    /// Where the payload starts.
    pub fn payload_offset(&self) -> (offset: usize)
        ensures
            offset == self@.payload,
    {
        self.payload
    }

    /// How many more bytes the buffer can take.
    pub fn room(&self) -> (room: usize)
        requires
            self.wf(),
        ensures
            room == self@.room(),
    {
        self.limit - self.buf.len()
    }

    /// The bytes of the current header.
    pub fn get_header(&self) -> (header: &[u8])
        requires
            self.wf(),
        ensures
            header@ == self@.header_bytes(),
    {
        let all: &[u8] = self.buf.as_slice();
        &all[self.header..self.payload]
    }

    /// The bytes that follow the current header.
    pub fn get_payload(&self) -> (payload: &[u8])
        requires
            self.wf(),
        ensures
            payload@ == self@.payload_bytes(),
    {
        let all: &[u8] = self.buf.as_slice();
        &all[self.payload..all.len()]
    }

    /// Interprets the first `size` bytes of the payload as the next header and
    /// moves the cursor onto it. No byte changes.
    pub fn parse_header(self, size: usize) -> (parsed: Packet)
        requires
            self.wf(),
            size <= self@.payload_bytes().len(),
        ensures
            parsed.wf(),
            parsed@ == self@.parsed(size as int),
    {
        Packet {
            buf: self.buf,
            limit: self.limit,
            header: self.payload,
            payload: self.payload + size,
        }
    }

    /// Inserts `header` in front of the payload and moves the cursor onto it.
    /// `None` when the buffer has no room for the header.
    pub fn push_header(self, header: &[u8]) -> (pushed: Option<Packet>)
        requires
            self.wf(),
        ensures
            pushed is Some <==> header@.len() <= self@.room(),
            pushed matches Some(p) ==> p.wf() && p@ == self@.pushed(header@),
    {
        if header.len() > self.limit - self.buf.len() {
            return None;
        }
        let ghost before = self@;
        let mut buf = self.buf;
        let mut tail = buf.split_off(self.payload);
        buf.extend_from_slice(header);
        buf.append(&mut tail);
        let pushed = Packet {
            buf,
            limit: self.limit,
            header: self.payload,
            payload: self.payload + header.len(),
        };
        proof {
            assert(pushed@.bytes =~= before.pushed(header@).bytes);
        }
        Some(pushed)
    }

    /// Moves the cursor back onto the `size` bytes in front of the current
    /// header; the current header becomes the start of the payload. No byte
    /// changes.
    pub fn deparse_header(self, size: usize) -> (deparsed: Packet)
        requires
            self.wf(),
            size <= self@.header,
        ensures
            deparsed.wf(),
            deparsed@ == self@.deparsed(size as int),
    {
        Packet {
            buf: self.buf,
            limit: self.limit,
            header: self.header - size,
            payload: self.header,
        }
    }

    /// Adds `data` at the end of the payload. Fails, and changes nothing, when
    /// the buffer has no room for all of it.
    pub fn add_to_payload_tail(&mut self, data: &[u8]) -> (added: Result<(), PacketError>)
        requires
            old(self).wf(),
        ensures
            final(self).wf(),
            added is Ok <==> data@.len() <= old(self)@.room(),
            added is Ok ==> final(self)@ == old(self)@.appended(data@),
            added is Err ==> final(self)@ == old(self)@,
    {
        if data.len() > self.limit - self.buf.len() {
            return Err(PacketError::FailedAllocation);
        }
        self.buf.extend_from_slice(data);
        proof {
            assert(self@.bytes =~= old(self)@.appended(data@).bytes);
        }
        Ok(())
    }

    /// Writes `field` over the current header, starting `at` bytes into it.
    /// The field must lie within the header.
    pub fn write_header(&mut self, at: usize, field: &[u8])
        requires
            old(self).wf(),
            at + field@.len() <= old(self)@.header_len(),
        ensures
            final(self).wf(),
            final(self)@ == old(self)@.overwritten(at as int, field@),
    {
        let start: usize = self.header + at;
        let mut i: usize = 0;
        while i < field.len()
            invariant
                i <= field@.len(),
                start == old(self).header + at,
                start + field@.len() <= self.buf@.len() <= usize::MAX,
                self.buf@.len() == old(self).buf@.len(),
                self.limit == old(self).limit,
                self.header == old(self).header,
                self.payload == old(self).payload,
                forall|j: int|
                    0 <= j < self.buf@.len() ==> self.buf@[j] == (if start <= j < start + i {
                        field@[j - start]
                    } else {
                        old(self).buf@[j]
                    }),
            decreases field@.len() - i,
        {
            self.buf[start + i] = field[i];
            i = i + 1;
        }
        proof {
            assert(self@.bytes =~= old(self)@.overwritten(at as int, field@).bytes);
        }
    }
}

} // verus!
