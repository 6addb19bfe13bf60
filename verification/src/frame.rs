//! Framed protocol messages.
//!
//! A frame is a fixed header followed by a payload of the declared
//! length: four magic bytes identifying the network, a twelve-byte
//! command name, the payload length as a little-endian 32-bit word, and
//! a checksum of the payload as a little-endian 32-bit word. The
//! checksum this library frames with is the 32-bit sum of the payload
//! bytes (the low 32 bits of the byte total).
//!
//! [`scan_spec`] says, for any byte buffer, which frames it holds, how
//! many framing violations it shows, and what tail stays buffered; the
//! connection code is proved against it.

use vstd::prelude::*;

verus! {

/// Length of the network-magic field of a frame header.
pub const MAGIC_LEN: usize = 4;

/// Length of the command-name field of a frame header.
pub const COMMAND_LEN: usize = 12;

/// Length of a full frame header: magic, command, payload length,
/// checksum.
pub const HEADER_LEN: usize = 24;

/// Largest payload length a peer may declare; a larger declared length
/// is a protocol violation.
pub const MAX_PAYLOAD_LEN: u32 = 0x0200_0000;

/// The 32-bit word stored little-endian at `off`.
pub open spec fn le32_at(s: Seq<u8>, off: int) -> u32 {
    (s[off] + s[off + 1] * 0x100 + s[off + 2] * 0x1_0000 + s[off + 3] * 0x100_0000) as u32
}

/// The four bytes of `x`, little-endian.
pub open spec fn le32_bytes(x: u32) -> Seq<u8> {
    seq![
        (x % 0x100) as u8,
        ((x / 0x100) % 0x100) as u8,
        ((x / 0x1_0000) % 0x100) as u8,
        ((x / 0x100_0000) % 0x100) as u8,
    ]
}

/// Reading back the four little-endian bytes of a word gives the word.
pub proof fn lemma_le32_roundtrip(x: u32)
    ensures
        le32_at(le32_bytes(x), 0) == x,
{
    let b = le32_bytes(x);
    assert(b[0] == (x % 0x100) as u8);
    assert(b[1] == ((x / 0x100) % 0x100) as u8);
    assert(b[2] == ((x / 0x1_0000) % 0x100) as u8);
    assert(b[3] == ((x / 0x100_0000) % 0x100) as u8);
    assert(x % 0x100 + ((x / 0x100) % 0x100) * 0x100 + ((x / 0x1_0000) % 0x100) * 0x1_0000 + ((x
        / 0x100_0000) % 0x100) * 0x100_0000 == x) by (bit_vector);
}

/// The total of the bytes of `s`, as an unbounded integer.
pub open spec fn byte_sum(s: Seq<u8>) -> int
    decreases s.len(),
{
    if s.len() == 0 {
        0
    } else {
        byte_sum(s.drop_last()) + s.last()
    }
}

/// The framing checksum: the low 32 bits of the byte total.
pub open spec fn checksum_spec(s: Seq<u8>) -> u32 {
    (byte_sum(s) % 0x1_0000_0000) as u32
}

/// Compute the framing checksum of a payload.
pub fn checksum(payload: &Vec<u8>) -> (c: u32)
    requires
        payload@.len() <= MAX_PAYLOAD_LEN,
    ensures
        c == checksum_spec(payload@),
{
    let mut acc: u64 = 0;
    let mut i: usize = 0;
    proof {
        assert(payload@.subrange(0, 0) =~= Seq::<u8>::empty());
    }
    while i < payload.len()
        invariant
            i <= payload@.len(),
            payload@.len() <= MAX_PAYLOAD_LEN,
            acc == byte_sum(payload@.subrange(0, i as int)),
            acc <= 255 * i,
        decreases payload@.len() - i,
    {
        proof {
            assert(payload@.subrange(0, i + 1).drop_last() =~= payload@.subrange(0, i as int));
            assert(payload@.subrange(0, i + 1).last() == payload@[i as int]);
        }
        acc = acc + payload[i] as u64;
        i += 1;
    }
    proof {
        assert(payload@.subrange(0, payload@.len() as int) =~= payload@);
    }
    (acc % 0x1_0000_0000) as u32
}

/// Read the little-endian 32-bit word at `off`.
pub fn read_le32(v: &Vec<u8>, off: usize) -> (r: u32)
    requires
        off + 4 <= v@.len(),
    ensures
        r == le32_at(v@, off as int),
{
    let n = v.len();
    assert(off + 4 <= n);
    let b0 = v[off] as u32;
    let b1 = v[off + 1] as u32;
    let b2 = v[off + 2] as u32;
    let b3 = v[off + 3] as u32;
    b0 + b1 * 0x100 + b2 * 0x1_0000 + b3 * 0x100_0000
}

/// Append the four little-endian bytes of `x`.
pub fn push_le32(v: &mut Vec<u8>, x: u32)
    ensures
        final(v)@ == old(v)@ + le32_bytes(x),
{
    v.push((x % 0x100) as u8);
    v.push(((x / 0x100) % 0x100) as u8);
    v.push(((x / 0x1_0000) % 0x100) as u8);
    v.push(((x / 0x100_0000) % 0x100) as u8);
    proof {
        assert(final(v)@ =~= old(v)@ + le32_bytes(x));
    }
}

/// Copy `v[start..end]` into a fresh vector.
pub fn subvec(v: &Vec<u8>, start: usize, end: usize) -> (out: Vec<u8>)
    requires
        start <= end <= v@.len(),
    ensures
        out@ == v@.subrange(start as int, end as int),
{
    let mut out: Vec<u8> = Vec::new();
    let mut i: usize = start;
    while i < end
        invariant
            start <= i <= end <= v@.len(),
            out@ == v@.subrange(start as int, i as int),
        decreases end - i,
    {
        out.push(v[i]);
        proof {
            assert(out@ =~= v@.subrange(start as int, i + 1));
        }
        i += 1;
    }
    out
}

/// The header of one framed message as handed to message handlers: the
/// command name (always [`COMMAND_LEN`] bytes), the declared payload
/// length, and the declared checksum.
pub struct BtcP2PMsgHdr {
    pub command: Vec<u8>,
    pub payload_len: u32,
    pub checksum: u32,
}

/// The mathematical content of one well-formed frame: its command name
/// and its payload.
pub struct SpecFrame {
    pub command: Seq<u8>,
    pub payload: Seq<u8>,
}

/// What the front of a buffer shows.
pub enum ScanStep {
    /// Too few bytes for a header, or for the declared payload.
    Incomplete,
    /// Wrong magic or oversized declared length: the frame boundary is
    /// lost and the whole buffer must go.
    Discard,
    /// A complete frame whose declared checksum does not match its
    /// payload; `consumed` bytes cover header and payload.
    BadChecksum { consumed: int },
    /// A complete well-formed frame of `consumed` bytes.
    Good { frame: SpecFrame, consumed: int },
}

/// Classify the front of `buf` against the network magic.
pub open spec fn scan_step(magic: Seq<u8>, buf: Seq<u8>) -> ScanStep {
    if buf.len() < HEADER_LEN {
        ScanStep::Incomplete
    } else if buf.subrange(0, MAGIC_LEN as int) != magic {
        ScanStep::Discard
    } else {
        let plen = le32_at(buf, 16);
        if plen > MAX_PAYLOAD_LEN {
            ScanStep::Discard
        } else if buf.len() < HEADER_LEN + plen {
            ScanStep::Incomplete
        } else {
            let total = HEADER_LEN + plen;
            let payload = buf.subrange(HEADER_LEN as int, total);
            if le32_at(buf, 20) != checksum_spec(payload) {
                ScanStep::BadChecksum { consumed: total }
            } else {
                ScanStep::Good {
                    frame: SpecFrame {
                        command: buf.subrange(MAGIC_LEN as int, 16),
                        payload,
                    },
                    consumed: total,
                }
            }
        }
    }
}

/// What scanning a whole buffer yields: the well-formed frames in
/// order, the number of framing violations met, and the bytes that stay
/// buffered.
pub struct ScanResult {
    pub frames: Seq<SpecFrame>,
    pub violations: nat,
    pub leftover: Seq<u8>,
}

/// Scan `buf` front to back: collect each well-formed frame, count each
/// violation (a checksum mismatch costs its frame; a lost boundary
/// costs the rest of the buffer), and stop on an incomplete tail, which
/// stays buffered.
pub open spec fn scan_spec(magic: Seq<u8>, buf: Seq<u8>) -> ScanResult
    decreases buf.len(),
{
    match scan_step(magic, buf) {
        ScanStep::Incomplete => ScanResult { frames: Seq::empty(), violations: 0, leftover: buf },
        ScanStep::Discard => ScanResult {
            frames: Seq::empty(),
            violations: 1,
            leftover: Seq::empty(),
        },
        ScanStep::BadChecksum { consumed } => {
            let rest = scan_spec(magic, buf.subrange(consumed, buf.len() as int));
            ScanResult {
                frames: rest.frames,
                violations: rest.violations + 1,
                leftover: rest.leftover,
            }
        },
        ScanStep::Good { frame, consumed } => {
            let rest = scan_spec(magic, buf.subrange(consumed, buf.len() as int));
            ScanResult {
                frames: seq![frame] + rest.frames,
                violations: rest.violations,
                leftover: rest.leftover,
            }
        },
    }
}

/// What one executable look at the receive buffer yields.
pub enum BufferEvent {
    Incomplete,
    Discard,
    BadChecksum { consumed: usize },
    Good { hdr: BtcP2PMsgHdr, payload: Vec<u8>, consumed: usize },
}

/// Whether an executable step outcome carries exactly what the
/// specification step says.
pub open spec fn step_matches(s: ScanStep, r: BufferEvent) -> bool {
    match r {
        BufferEvent::Incomplete => s is Incomplete,
        BufferEvent::Discard => s is Discard,
        BufferEvent::BadChecksum { consumed } => s == (ScanStep::BadChecksum {
            consumed: consumed as int,
        }),
        BufferEvent::Good { hdr, payload, consumed } => {
            &&& s matches ScanStep::Good { frame, consumed: c }
            &&& c == consumed as int
            &&& hdr.command@ == frame.command
            &&& payload@ == frame.payload
            &&& hdr.payload_len == frame.payload.len()
            &&& hdr.checksum == checksum_spec(frame.payload)
        },
    }
}

/// Whether `buf` starts with the four magic bytes.
fn magic_matches(magic: &Vec<u8>, buf: &Vec<u8>) -> (r: bool)
    requires
        magic@.len() == MAGIC_LEN,
        buf@.len() >= MAGIC_LEN,
    ensures
        r == (buf@.subrange(0, MAGIC_LEN as int) == magic@),
{
    let mut i: usize = 0;
    while i < MAGIC_LEN
        invariant
            i <= MAGIC_LEN,
            magic@.len() == MAGIC_LEN,
            buf@.len() >= MAGIC_LEN,
            forall|j: int| 0 <= j < i ==> buf@[j] == magic@[j],
        decreases MAGIC_LEN - i,
    {
        if buf[i] != magic[i] {
            assert(buf@.subrange(0, MAGIC_LEN as int)[i as int] != magic@[i as int]);
            return false;
        }
        i += 1;
    }
    proof {
        assert(buf@.subrange(0, MAGIC_LEN as int) =~= magic@);
    }
    true
}

/// Classify the front of `buf`, handing back the header and payload of
/// a complete frame.
pub fn scan_step_exec(magic: &Vec<u8>, buf: &Vec<u8>) -> (r: BufferEvent)
    requires
        magic@.len() == MAGIC_LEN,
    ensures
        step_matches(scan_step(magic@, buf@), r),
{
    let n = buf.len();
    if n < HEADER_LEN {
        return BufferEvent::Incomplete;
    }
    if !magic_matches(magic, buf) {
        return BufferEvent::Discard;
    }
    let plen = read_le32(buf, 16);
    if plen > MAX_PAYLOAD_LEN {
        return BufferEvent::Discard;
    }
    let total = HEADER_LEN + (plen as usize);
    if n < total {
        return BufferEvent::Incomplete;
    }
    let payload = subvec(buf, HEADER_LEN, total);
    let computed = checksum(&payload);
    let declared = read_le32(buf, 20);
    if declared != computed {
        return BufferEvent::BadChecksum { consumed: total };
    }
    let command = subvec(buf, MAGIC_LEN, 16);
    BufferEvent::Good {
        hdr: BtcP2PMsgHdr { command, payload_len: plen, checksum: declared },
        payload,
        consumed: total,
    }
}

/// Each step of a scan consumes at least a header and at most the
/// buffer.
pub proof fn lemma_scan_step_consumed(magic: Seq<u8>, buf: Seq<u8>)
    ensures
        scan_step(magic, buf) matches ScanStep::BadChecksum { consumed } ==> HEADER_LEN <= consumed
            <= buf.len(),
        scan_step(magic, buf) matches ScanStep::Good { consumed, .. } ==> HEADER_LEN <= consumed
            <= buf.len(),
{
}

/// The bytes of one frame with an arbitrary checksum field.
pub open spec fn encode_frame_with(
    magic: Seq<u8>,
    command: Seq<u8>,
    payload: Seq<u8>,
    cksum: u32,
) -> Seq<u8> {
    magic + command + le32_bytes(payload.len() as u32) + le32_bytes(cksum) + payload
}

/// The bytes of one well-formed frame.
pub open spec fn encode_frame(magic: Seq<u8>, command: Seq<u8>, payload: Seq<u8>) -> Seq<u8> {
    encode_frame_with(magic, command, payload, checksum_spec(payload))
}

/// An encoded frame put in front of anything scans as one step: a good
/// frame when its checksum field is right, a checksum violation when it
/// is not, and either way the step consumes exactly the frame.
pub proof fn lemma_scan_step_frame(
    magic: Seq<u8>,
    command: Seq<u8>,
    payload: Seq<u8>,
    cksum: u32,
    rest: Seq<u8>,
)
    requires
        magic.len() == MAGIC_LEN,
        command.len() == COMMAND_LEN,
        payload.len() <= MAX_PAYLOAD_LEN,
    ensures
        (encode_frame_with(magic, command, payload, cksum) + rest).len() == HEADER_LEN
            + payload.len() + rest.len(),
        scan_step(magic, encode_frame_with(magic, command, payload, cksum) + rest) == (if cksum
            == checksum_spec(payload) {
            ScanStep::Good {
                frame: SpecFrame { command, payload },
                consumed: HEADER_LEN + payload.len(),
            }
        } else {
            ScanStep::BadChecksum { consumed: HEADER_LEN + payload.len() }
        }),
        (encode_frame_with(magic, command, payload, cksum) + rest).subrange(
            HEADER_LEN + payload.len(),
            HEADER_LEN + payload.len() + rest.len(),
        ) == rest,
{
    let plen_bytes = le32_bytes(payload.len() as u32);
    let ck_bytes = le32_bytes(cksum);
    let buf = encode_frame_with(magic, command, payload, cksum) + rest;
    assert(buf.len() == HEADER_LEN + payload.len() + rest.len());
    assert forall|i: int| 0 <= i < MAGIC_LEN implies buf[i] == magic[i] by {}
    assert(buf.subrange(0, MAGIC_LEN as int) =~= magic);
    assert forall|i: int| 0 <= i < COMMAND_LEN implies buf[MAGIC_LEN + i] == command[i] by {}
    assert(buf.subrange(MAGIC_LEN as int, 16) =~= command);
    assert forall|i: int| 0 <= i < 4 implies buf[16 + i] == plen_bytes[i] by {}
    assert forall|i: int| 0 <= i < 4 implies buf[20 + i] == ck_bytes[i] by {}
    lemma_le32_roundtrip(payload.len() as u32);
    lemma_le32_roundtrip(cksum);
    assert(le32_at(buf, 16) == le32_at(plen_bytes, 0));
    assert(le32_at(buf, 20) == le32_at(ck_bytes, 0));
    assert(le32_at(buf, 16) == payload.len() as u32);
    assert(le32_at(buf, 20) == cksum);
    assert forall|i: int| 0 <= i < payload.len() implies buf[HEADER_LEN + i] == payload[i] by {}
    assert(buf.subrange(HEADER_LEN as int, HEADER_LEN + payload.len()) =~= payload);
    assert(buf.subrange(HEADER_LEN + payload.len(), buf.len() as int) =~= rest);
}

/// Scanning a buffer of exactly two well-formed back-to-back frames
/// yields those two frames in arrival order, no violation, and an empty
/// buffer afterwards.
pub proof fn lemma_scan_two_frames(
    magic: Seq<u8>,
    command1: Seq<u8>,
    payload1: Seq<u8>,
    command2: Seq<u8>,
    payload2: Seq<u8>,
)
    requires
        magic.len() == MAGIC_LEN,
        command1.len() == COMMAND_LEN,
        command2.len() == COMMAND_LEN,
        payload1.len() <= MAX_PAYLOAD_LEN,
        payload2.len() <= MAX_PAYLOAD_LEN,
    ensures
        ({
            let r = scan_spec(
                magic,
                encode_frame(magic, command1, payload1) + encode_frame(magic, command2, payload2),
            );
            &&& r.frames == seq![
                SpecFrame { command: command1, payload: payload1 },
                SpecFrame { command: command2, payload: payload2 },
            ]
            &&& r.violations == 0
            &&& r.leftover == Seq::<u8>::empty()
        }),
{
    let enc1 = encode_frame(magic, command1, payload1);
    let enc2 = encode_frame(magic, command2, payload2);
    let buf = enc1 + enc2;
    lemma_scan_step_frame(magic, command1, payload1, checksum_spec(payload1), enc2);
    let c1 = HEADER_LEN + payload1.len();
    assert(buf.subrange(c1 as int, buf.len() as int) == enc2);
    lemma_scan_step_frame(magic, command2, payload2, checksum_spec(payload2), Seq::empty());
    assert(enc2 + Seq::<u8>::empty() =~= enc2);
    let c2 = HEADER_LEN + payload2.len();
    assert(enc2.subrange(c2 as int, enc2.len() as int) =~= Seq::<u8>::empty());
    let empty = Seq::<u8>::empty();
    assert(scan_step(magic, empty) is Incomplete);
    assert(scan_spec(magic, empty).frames == Seq::<SpecFrame>::empty());
    assert(scan_spec(magic, enc2).frames == seq![SpecFrame { command: command2, payload: payload2 }]
        + Seq::<SpecFrame>::empty());
    assert(scan_spec(magic, buf).frames == seq![SpecFrame { command: command1, payload: payload1 }]
        + scan_spec(magic, enc2).frames);
    assert(scan_spec(magic, buf).frames =~= seq![
        SpecFrame { command: command1, payload: payload1 },
        SpecFrame { command: command2, payload: payload2 },
    ]);
    assert(scan_spec(magic, buf).violations == 0);
    assert(scan_spec(magic, buf).leftover == empty);
}

/// Scanning a single complete frame whose checksum field is corrupted
/// yields no frame and exactly one violation, and consumes the frame.
pub proof fn lemma_scan_corrupt_checksum(
    magic: Seq<u8>,
    command: Seq<u8>,
    payload: Seq<u8>,
    cksum: u32,
)
    requires
        magic.len() == MAGIC_LEN,
        command.len() == COMMAND_LEN,
        payload.len() <= MAX_PAYLOAD_LEN,
        cksum != checksum_spec(payload),
    ensures
        ({
            let r = scan_spec(magic, encode_frame_with(magic, command, payload, cksum));
            &&& r.frames == Seq::<SpecFrame>::empty()
            &&& r.violations == 1
            &&& r.leftover == Seq::<u8>::empty()
        }),
{
    let enc = encode_frame_with(magic, command, payload, cksum);
    lemma_scan_step_frame(magic, command, payload, cksum, Seq::empty());
    assert(enc + Seq::<u8>::empty() =~= enc);
    let c = HEADER_LEN + payload.len();
    assert(enc.subrange(c as int, enc.len() as int) =~= Seq::<u8>::empty());
    let empty = Seq::<u8>::empty();
    assert(scan_step(magic, empty) is Incomplete);
    assert(scan_spec(magic, enc).violations == scan_spec(magic, empty).violations + 1);
    assert(scan_spec(magic, enc).frames == Seq::<SpecFrame>::empty());
    assert(scan_spec(magic, enc).leftover == empty);
}

/// Build the bytes of one frame around `payload`.
pub fn build_frame(magic: &Vec<u8>, command: &Vec<u8>, payload: &Vec<u8>) -> (out: Vec<u8>)
    requires
        magic@.len() == MAGIC_LEN,
        command@.len() == COMMAND_LEN,
        payload@.len() <= MAX_PAYLOAD_LEN,
    ensures
        out@ == encode_frame(magic@, command@, payload@),
{
    let mut out: Vec<u8> = Vec::new();
    append_bytes(&mut out, magic);
    append_bytes(&mut out, command);
    let plen: u32 = payload.len() as u32;
    push_le32(&mut out, plen);
    let ck = checksum(payload);
    push_le32(&mut out, ck);
    append_bytes(&mut out, payload);
    proof {
        assert(out@ =~= encode_frame(magic@, command@, payload@));
    }
    out
}

/// Append all of `src` to `dst`.
pub fn append_bytes(dst: &mut Vec<u8>, src: &Vec<u8>)
    ensures
        final(dst)@ == old(dst)@ + src@,
{
    let mut i: usize = 0;
    while i < src.len()
        invariant
            i <= src@.len(),
            dst@ == old(dst)@ + src@.subrange(0, i as int),
        decreases src@.len() - i,
    {
        dst.push(src[i]);
        proof {
            assert(dst@ =~= old(dst)@ + src@.subrange(0, i + 1));
        }
        i += 1;
    }
    proof {
        assert(old(dst)@ + src@.subrange(0, src@.len() as int) =~= old(dst)@ + src@);
    }
}

} // verus!
