//! The fanotify wire format: event masks, permission responses and the
//! decoding of the event records that `read(2)` returns on a fanotify
//! descriptor. Records are laid out in the machine's byte order, which the
//! caller learns from `native_byte_order` and passes in.
use vstd::prelude::*;

verus! {

/// The version of `struct fanotify_event_metadata` this library decodes.
pub const FANOTIFY_METADATA_VERSION: u8 = 3;

/// Size in bytes of `struct fanotify_event_metadata`.
pub const METADATA_SIZE: usize = 24;

/// Size in bytes of `struct fanotify_response`.
pub const RESPONSE_SIZE: usize = 8;

/// `fd` value of an event that carries no file descriptor (queue overflow).
pub const FAN_NOFD: i32 = -1;

/// A file or directory is accessed (`read`).
pub const FAN_ACCESS: u64 = 0x0000_0001;
/// A file is modified (`write`).
pub const FAN_MODIFY: u64 = 0x0000_0002;
/// The metadata for a file or directory has changed.
pub const FAN_ATTRIB: u64 = 0x0000_0004;
/// A writable file is closed.
pub const FAN_CLOSE_WRITE: u64 = 0x0000_0008;
/// A read-only file or directory is closed.
pub const FAN_CLOSE_NOWRITE: u64 = 0x0000_0010;
/// A file or directory is opened.
pub const FAN_OPEN: u64 = 0x0000_0020;
/// A file or directory has been moved from a marked parent directory.
pub const FAN_MOVED_FROM: u64 = 0x0000_0040;
/// A file or directory has been moved to a marked parent directory.
pub const FAN_MOVED_TO: u64 = 0x0000_0080;
/// A file or directory has been created in a marked parent directory.
pub const FAN_CREATE: u64 = 0x0000_0100;
/// A file or directory has been deleted in a marked parent directory.
pub const FAN_DELETE: u64 = 0x0000_0200;
/// A marked file or directory itself is deleted.
pub const FAN_DELETE_SELF: u64 = 0x0000_0400;
/// A marked file or directory itself has been moved.
pub const FAN_MOVE_SELF: u64 = 0x0000_0800;
/// A file is opened with the intent to be executed.
pub const FAN_OPEN_EXEC: u64 = 0x0000_1000;
/// Event queue overflowed.
pub const FAN_Q_OVERFLOW: u64 = 0x0000_4000;
/// A filesystem error was detected.
pub const FAN_FS_ERROR: u64 = 0x0000_8000;
/// A permission to open a file or directory is requested.
pub const FAN_OPEN_PERM: u64 = 0x0001_0000;
/// A permission to read a file or directory is requested.
pub const FAN_ACCESS_PERM: u64 = 0x0002_0000;
/// A permission to open a file for execution is requested.
pub const FAN_OPEN_EXEC_PERM: u64 = 0x0004_0000;
/// Events for the immediate children of marked directories.
pub const FAN_EVENT_ON_CHILD: u64 = 0x0800_0000;
/// File was renamed.
pub const FAN_RENAME: u64 = 0x1000_0000;
/// Create events for directories too.
pub const FAN_ONDIR: u64 = 0x4000_0000;
/// A file is closed (`FAN_CLOSE_WRITE | FAN_CLOSE_NOWRITE`).
pub const FAN_CLOSE: u64 = 0x0000_0018;
/// A file or directory has been moved (`FAN_MOVED_FROM | FAN_MOVED_TO`).
pub const FAN_MOVE: u64 = 0x0000_00c0;

/// Allow the file operation.
pub const FAN_ALLOW: u32 = 0x01;
/// Deny the file operation.
pub const FAN_DENY: u32 = 0x02;
/// Create an audit record for the decision.
pub const FAN_AUDIT: u32 = 0x10;

/// A set of fanotify event bits.
#[derive(Clone, Copy, PartialEq, Eq, Debug)]
pub struct EventFlags {
    pub bits: u64,
}

impl EventFlags {
    /// The raw mask.
    pub open spec fn spec_bits(self) -> u64 {
        self.bits
    }

    /// The flags with exactly the given bits set, unknown ones included.
    pub fn from_bits_retain(bits: u64) -> (f: EventFlags)
        ensures
            f.spec_bits() == bits,
    {
        EventFlags { bits }
    }

    /// The raw mask.
    pub fn bits(&self) -> (b: u64)
        ensures
            b == self.spec_bits(),
    {
        self.bits
    }

    /// Whether every bit of `other` is set in `self`.
    pub fn contains(&self, other: EventFlags) -> (b: bool)
        ensures
            b == (self.spec_bits() & other.spec_bits() == other.spec_bits()),
    {
        (self.bits & other.bits) == other.bits
    }

    /// The bits set in either set.
    pub fn union(&self, other: EventFlags) -> (f: EventFlags)
        ensures
            f.spec_bits() == self.spec_bits() | other.spec_bits(),
    {
        EventFlags { bits: self.bits | other.bits }
    }
}

/// A permission decision written back to the fanotify descriptor.
#[derive(Clone, Copy, PartialEq, Eq, Debug)]
pub struct Response {
    pub bits: u32,
}

impl Response {
    /// The raw response value.
    pub open spec fn spec_bits(self) -> u32 {
        self.bits
    }

    /// Allow the operation.
    pub fn allow() -> (r: Response)
        ensures
            r.spec_bits() == FAN_ALLOW,
    {
        Response { bits: FAN_ALLOW }
    }

    /// Deny the operation.
    pub fn deny() -> (r: Response)
        ensures
            r.spec_bits() == FAN_DENY,
    {
        Response { bits: FAN_DENY }
    }

    /// The response with exactly the given bits.
    pub fn from_bits_retain(bits: u32) -> (r: Response)
        ensures
            r.spec_bits() == bits,
    {
        Response { bits }
    }

    /// The raw response value.
    pub fn bits(&self) -> (b: u32)
        ensures
            b == self.spec_bits(),
    {
        self.bits
    }
}

/// One event as the kernel reports it.
#[derive(Clone, Copy, PartialEq, Eq, Debug)]
pub struct FanotifyEventMetadata {
    /// Length of the data for the current event and the
    /// offset to the next event in the buffer.
    pub event_len: u32,
    /// A version number for the structure. It must
    /// be compared to `FANOTIFY_METADATA_VERSION`.
    pub vers: u8,
    /// This is the length of the structure.
    pub metadata_len: u16,
    /// A bit mask describing the event.
    pub mask: EventFlags,
    /// Open file descriptor for the object being accessed, or `FAN_NOFD`
    /// if a queue overflow occurred.
    pub fd: i32,
    /// PID of the process that caused the event.
    pub pid: i32,
}

/// The order in which the bytes of a multi-byte integer are laid out.
#[derive(Clone, Copy, PartialEq, Eq, Debug, Structural)]
pub enum ByteOrder {
    Little,
    Big,
}

/// Calls `u16::from_ne_bytes([1, 0])`, which reads the two bytes in the
/// machine's byte order: 1 on a little-endian machine, 256 on a big-endian
/// one. Which of the two is left open: it is a property of the machine.
#[verifier::external_body]
fn native_u16_of_one_zero() -> (v: u16)
    ensures
        v == 1 || v == 256,
{
    u16::from_ne_bytes([1, 0])
}

/// The byte order in which the two bytes `[1, 0]` read as `v`: little-endian
/// when `v` is 1, big-endian when it is 256.
pub fn byte_order_of_probe(v: u16) -> (o: ByteOrder)
    requires
        v == 1 || v == 256,
    ensures
        u16_at(seq![1u8, 0u8], 0, o) == v as int,
        (v == 1) == (o == ByteOrder::Little),
{
    if v == 1 {
        ByteOrder::Little
    } else {
        ByteOrder::Big
    }
}

/// The byte order of the machine this runs on, in which the kernel lays out
/// fanotify records and expects answers: the order in which the machine
/// reads the bytes `[1, 0]` as what `u16::from_ne_bytes` gives for them.
pub fn native_byte_order() -> (o: ByteOrder)
    ensures
        u16_at(seq![1u8, 0u8], 0, o) == 1 || u16_at(seq![1u8, 0u8], 0, o) == 256,
{
    byte_order_of_probe(native_u16_of_one_zero())
}

/// Value of the two bytes at `off` in byte order `o`.
pub open spec fn u16_at(s: Seq<u8>, off: int, o: ByteOrder) -> int {
    match o {
        ByteOrder::Little => s[off] + 256 * s[off + 1],
        ByteOrder::Big => 256 * s[off] + s[off + 1],
    }
}

/// Value of the four bytes at `off` in byte order `o`.
pub open spec fn u32_at(s: Seq<u8>, off: int, o: ByteOrder) -> int {
    match o {
        ByteOrder::Little => u16_at(s, off, o) + 65536 * u16_at(s, off + 2, o),
        ByteOrder::Big => 65536 * u16_at(s, off, o) + u16_at(s, off + 2, o),
    }
}

/// Value of the eight bytes at `off` in byte order `o`.
pub open spec fn u64_at(s: Seq<u8>, off: int, o: ByteOrder) -> int {
    match o {
        ByteOrder::Little => u32_at(s, off, o) + 4294967296 * u32_at(s, off + 4, o),
        ByteOrder::Big => 4294967296 * u32_at(s, off, o) + u32_at(s, off + 4, o),
    }
}

/// Two's complement value of the four bytes at `off` in byte order `o`.
pub open spec fn i32_at(s: Seq<u8>, off: int, o: ByteOrder) -> int {
    if u32_at(s, off, o) < 0x8000_0000 {
        u32_at(s, off, o)
    } else {
        u32_at(s, off, o) - 0x1_0000_0000
    }
}

/// The event record that starts at byte `off` of `buf`.
pub open spec fn decode_event(buf: Seq<u8>, off: int, o: ByteOrder) -> FanotifyEventMetadata {
    FanotifyEventMetadata {
        event_len: u32_at(buf, off, o) as u32,
        vers: buf[off + 4],
        metadata_len: u16_at(buf, off + 6, o) as u16,
        mask: EventFlags { bits: u64_at(buf, off + 8, o) as u64 },
        fd: i32_at(buf, off + 16, o) as i32,
        pid: i32_at(buf, off + 20, o) as i32,
    }
}

/// Walking the records from `off` on, every record that is reached has a
/// nonzero length that stays inside the buffer, so the walk ends exactly
/// where fewer than `METADATA_SIZE` bytes are left.
pub open spec fn records_well_formed(buf: Seq<u8>, off: nat, o: ByteOrder) -> bool
    decreases buf.len() - off,
{
    if off > buf.len() {
        false
    } else if buf.len() - off < METADATA_SIZE {
        true
    } else {
        let l = u32_at(buf, off as int, o);
        if l > 0 && off + l <= buf.len() {
            records_well_formed(buf, (off + l) as nat, o)
        } else {
            false
        }
    }
}

/// The records reached walking the buffer from `off` on, each record's
/// `event_len` being the distance to the next one.
pub open spec fn records_from(buf: Seq<u8>, off: nat, o: ByteOrder) -> Seq<FanotifyEventMetadata>
    decreases buf.len() - off,
{
    if off > buf.len() || buf.len() - off < METADATA_SIZE {
        Seq::empty()
    } else {
        let l = u32_at(buf, off as int, o);
        if l > 0 && off + l <= buf.len() {
            seq![decode_event(buf, off as int, o)] + records_from(buf, (off + l) as nat, o)
        } else {
            seq![decode_event(buf, off as int, o)]
        }
    }
}

fn read_u16(buf: &[u8], off: usize, o: ByteOrder) -> (v: u16)
    requires
        off + 2 <= buf.len(),
    ensures
        v == u16_at(buf@, off as int, o),
{
    match o {
        ByteOrder::Little => (buf[off] as u16) + 256 * (buf[off + 1] as u16),
        ByteOrder::Big => 256 * (buf[off] as u16) + (buf[off + 1] as u16),
    }
}

fn read_u32(buf: &[u8], off: usize, o: ByteOrder) -> (v: u32)
    requires
        off + 4 <= buf.len(),
    ensures
        v == u32_at(buf@, off as int, o),
{
    let first = read_u16(buf, off, o) as u32;
    let second = read_u16(buf, off + 2, o) as u32;
    match o {
        ByteOrder::Little => first + 65536 * second,
        ByteOrder::Big => 65536 * first + second,
    }
}

fn read_u64(buf: &[u8], off: usize, o: ByteOrder) -> (v: u64)
    requires
        off + 8 <= buf.len(),
    ensures
        v == u64_at(buf@, off as int, o),
{
    let first = read_u32(buf, off, o) as u64;
    let second = read_u32(buf, off + 4, o) as u64;
    match o {
        ByteOrder::Little => first + 4294967296 * second,
        ByteOrder::Big => 4294967296 * first + second,
    }
}

fn read_i32(buf: &[u8], off: usize, o: ByteOrder) -> (v: i32)
    requires
        off + 4 <= buf.len(),
    ensures
        v == i32_at(buf@, off as int, o),
{
    let u = read_u32(buf, off, o);
    if u < 0x8000_0000 {
        u as i32
    } else {
        let below: u32 = 0xFFFF_FFFF - u;
        -(below as i32) - 1
    }
}

/// Decodes the event record that starts at byte `off`.
pub fn decode_event_at(buf: &[u8], off: usize, o: ByteOrder) -> (e: FanotifyEventMetadata)
    requires
        off + METADATA_SIZE <= buf.len(),
    ensures
        e == decode_event(buf@, off as int, o),
{
    FanotifyEventMetadata {
        event_len: read_u32(buf, off, o),
        vers: buf[off + 4],
        metadata_len: read_u16(buf, off + 6, o),
        mask: EventFlags { bits: read_u64(buf, off + 8, o) },
        fd: read_i32(buf, off + 16, o),
        pid: read_i32(buf, off + 20, o),
    }
}

/// Whether `parse_events` accepts the bytes that one `read(2)` returned.
pub fn events_well_formed(buf: &[u8], o: ByteOrder) -> (b: bool)
    ensures
        b == records_well_formed(buf@, 0, o),
{
    let len = buf.len();
    let mut off: usize = 0;
    while len - off >= METADATA_SIZE
        invariant
            len == buf@.len(),
            off <= len,
            records_well_formed(buf@, 0, o) == records_well_formed(buf@, off as nat, o),
        decreases len - off,
    {
        let l = read_u32(buf, off, o) as usize;
        if l == 0 || l > len - off {
            return false;
        }
        off = off + l;
    }
    true
}

/// Decodes all events in the bytes that one `read(2)` on a fanotify
/// descriptor returned, walking from record to record by `event_len`; `o`
/// is the machine's byte order.
pub fn parse_events(buf: &[u8], o: ByteOrder) -> (events: Vec<FanotifyEventMetadata>)
    requires
        records_well_formed(buf@, 0, o),
    ensures
        events@ == records_from(buf@, 0, o),
{
    let len = buf.len();
    let mut events: Vec<FanotifyEventMetadata> = Vec::new();
    let mut off: usize = 0;
    while len - off >= METADATA_SIZE
        invariant
            len == buf@.len(),
            off <= len,
            records_well_formed(buf@, off as nat, o),
            records_from(buf@, 0, o) == events@ + records_from(buf@, off as nat, o),
        decreases len - off,
    {
        let e = decode_event_at(buf, off, o);
        events.push(e);
        off = off + e.event_len as usize;
    }
    proof {
        assert(events@ + Seq::<FanotifyEventMetadata>::empty() =~= events@);
    }
    events
}

fn push_u32(bytes: &mut Vec<u8>, v: u32, o: ByteOrder)
    ensures
        final(bytes)@.len() == old(bytes)@.len() + 4,
        final(bytes)@.subrange(0, old(bytes)@.len() as int) == old(bytes)@,
        u32_at(final(bytes)@, old(bytes)@.len() as int, o) == v,
{
    let b0 = (v % 256) as u8;
    let b1 = ((v / 256) % 256) as u8;
    let b2 = ((v / 65536) % 256) as u8;
    let b3 = (v / 16777216) as u8;
    let ghost n = bytes@.len() as int;
    match o {
        ByteOrder::Little => {
            bytes.push(b0);
            bytes.push(b1);
            bytes.push(b2);
            bytes.push(b3);
        },
        ByteOrder::Big => {
            bytes.push(b3);
            bytes.push(b2);
            bytes.push(b1);
            bytes.push(b0);
        },
    }
    assert(bytes@.subrange(0, n) =~= old(bytes)@);
}

/// The bytes of `struct fanotify_response` for the given descriptor and
/// decision, in byte order `o`.
pub fn encode_response(fd: i32, response: Response, o: ByteOrder) -> (bytes: Vec<u8>)
    ensures
        bytes@.len() == RESPONSE_SIZE,
        i32_at(bytes@, 0, o) == fd,
        u32_at(bytes@, 4, o) == response.spec_bits(),
{
    let ufd: u32 = if fd >= 0 {
        fd as u32
    } else {
        (0xFFFF_FFFFu32 - ((-(fd + 1)) as u32))
    };
    let mut bytes: Vec<u8> = Vec::new();
    push_u32(&mut bytes, ufd, o);
    let ghost first = bytes@;
    push_u32(&mut bytes, response.bits, o);
    proof {
        assert(bytes@.subrange(0, 4) == first);
        assert(u32_at(first, 0, o) == u32_at(bytes@, 0, o)) by {
            assert(first[0] == bytes@[0]);
            assert(first[1] == bytes@[1]);
            assert(first[2] == bytes@[2]);
            assert(first[3] == bytes@[3]);
        }
    }
    bytes
}

/// Every field of a decoded record is the value of its bytes at its place in
/// `struct fanotify_event_metadata` (length at 0, version at 4, metadata
/// length at 6, mask at 8, descriptor at 16, pid at 20), read in the given
/// byte order; the descriptor and the pid are the full 32-bit two's
/// complement values.
pub proof fn lemma_decode_event_bytes(buf: Seq<u8>, off: int, o: ByteOrder)
    requires
        0 <= off,
        off + METADATA_SIZE <= buf.len(),
    ensures
        ({
            let e = decode_event(buf, off, o);
            let b = |i: int| buf[off + i] as int;
            let w32 = |i: int|
                if o == ByteOrder::Little {
                    b(i) + 256 * b(i + 1) + 65536 * b(i + 2) + 16777216 * b(i + 3)
                } else {
                    16777216 * b(i) + 65536 * b(i + 1) + 256 * b(i + 2) + b(i + 3)
                };
            let sign = |i: int|
                if o == ByteOrder::Little {
                    b(i + 3) >= 128
                } else {
                    b(i) >= 128
                };
            &&& e.event_len as int == w32(0)
            &&& e.vers == buf[off + 4]
            &&& e.metadata_len as int == (if o == ByteOrder::Little {
                b(6) + 256 * b(7)
            } else {
                256 * b(6) + b(7)
            })
            &&& e.mask.bits as int == (if o == ByteOrder::Little {
                w32(8) + 4294967296 * w32(12)
            } else {
                4294967296 * w32(8) + w32(12)
            })
            &&& e.fd as int == w32(16) - (if sign(16) {
                4294967296int
            } else {
                0
            })
            &&& e.pid as int == w32(20) - (if sign(20) {
                4294967296int
            } else {
                0
            })
        }),
{
    let b = |i: int| buf[off + i] as int;
    assert forall|i: int| 0 <= i < 24 implies 0 <= #[trigger] b(i) < 256 by {}
    assert(0 <= b(16) < 256 && 0 <= b(19) < 256 && 0 <= b(20) < 256 && 0 <= b(23) < 256);
}

} // verus!
