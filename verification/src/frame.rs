//! HID framing used by the pump screen.
//!
//! A logical frame is `5A | u16be length | payload | checksum | 5A`.
//! `length` counts every byte of the logical frame, both markers among them.
//! The checksum is the low 8 bits of the sum of the length bytes and the payload.
//! On the wire, `5A` and `5B` between the markers are escaped so that no byte there can look
//! like the end marker: `5A` becomes `5B 01` and `5B` becomes `5B 02`.

use crate::text::{hex_byte, hex_byte_text};
use vstd::prelude::*;

verus! {

#[derive(Debug, Clone, PartialEq, Eq)]
pub struct Frame {
    pub payload: Vec<u8>,
}

#[derive(Debug, Clone, Copy, PartialEq, Eq, Structural)]
pub enum FrameError {
    Truncated,
    BadStart,
    BadLength,
    BadChecksum { expected: u8, actual: u8 },
    BadEscape,
}

impl FrameError {
    /// What the error says.
    pub open spec fn text(self) -> Seq<char> {
        match self {
            FrameError::Truncated => "frame is incomplete"@,
            FrameError::BadStart => "frame does not start with 5A"@,
            FrameError::BadLength => "frame length does not match its header"@,
            FrameError::BadChecksum { expected, actual } => "checksum was "@
                + hex_byte(actual) + ", expected "@ + hex_byte(expected),
            FrameError::BadEscape => "frame escape byte is incomplete"@,
        }
    }

    /// The error in words.
    pub fn message(&self) -> (r: String)
        ensures
            r@ == self.text(),
    {
        match self {
            FrameError::Truncated => "frame is incomplete".to_owned(),
            FrameError::BadStart => "frame does not start with 5A".to_owned(),
            FrameError::BadLength => "frame length does not match its header".to_owned(),
            FrameError::BadChecksum { expected, actual } => {
                let mut out: String = "checksum was ".to_owned();
                out.append(hex_byte_text(*actual).as_str());
                out.append(", expected ");
                out.append(hex_byte_text(*expected).as_str());
                out
            },
            FrameError::BadEscape => "frame escape byte is incomplete".to_owned(),
        }
    }
}

/// The sum of the bytes.
pub open spec fn total(s: Seq<u8>) -> nat
    decreases s.len(),
{
    if s.len() == 0 {
        0
    } else {
        total(s.drop_last()) + s.last() as nat
    }
}

/// The low 8 bits of the sum of the bytes.
pub open spec fn checksum(s: Seq<u8>) -> u8 {
    (total(s) % 256) as u8
}

/// The low 16 bits of `n`, high byte first.
pub open spec fn big_endian(n: nat) -> Seq<u8> {
    seq![(n / 256 % 256) as u8, (n % 256) as u8]
}

/// Length and payload: what the checksum covers.
pub open spec fn covered(payload: Seq<u8>) -> Seq<u8> {
    big_endian(payload.len() + 5) + payload
}

/// What stands between the markers before escaping.
pub open spec fn interior_of(payload: Seq<u8>) -> Seq<u8> {
    covered(payload).push(checksum(covered(payload)))
}

/// A byte as it stands between the markers.
pub open spec fn escape_byte(b: u8) -> Seq<u8> {
    if b == 0x5a {
        seq![0x5bu8, 0x01u8]
    } else if b == 0x5b {
        seq![0x5bu8, 0x02u8]
    } else {
        seq![b]
    }
}

/// Bytes as they stand between the markers.
pub open spec fn escape(s: Seq<u8>) -> Seq<u8>
    decreases s.len(),
{
    if s.len() == 0 {
        seq![]
    } else {
        escape_byte(s[0]) + escape(s.skip(1))
    }
}

/// The bytes of the frame that carries `payload`.
pub open spec fn wire(payload: Seq<u8>) -> Seq<u8> {
    seq![0x5au8] + escape(interior_of(payload)) + seq![0x5au8]
}

/// What the bytes behind a start marker amount to.
pub enum Scan {
    /// The end marker came after `used` bytes; `interior` is what stood before it, unescaped.
    Ended { interior: Seq<u8>, used: nat },
    /// The bytes ran out before the end marker.
    Open,
    /// The bytes ran out inside an escape.
    Dangling,
}

/// The byte that `5B b` stands for.
pub open spec fn unescaped(b: u8) -> u8 {
    ((b as nat + 0x59) % 256) as u8
}

/// A scan result seen from further to the front: `bytes` were read out of `used` wire bytes.
pub open spec fn preceded(bytes: Seq<u8>, used: nat, scan: Scan) -> Scan {
    match scan {
        Scan::Ended { interior, used: rest } => Scan::Ended {
            interior: bytes + interior,
            used: used + rest,
        },
        Scan::Open => Scan::Open,
        Scan::Dangling => Scan::Dangling,
    }
}

/// Reads the bytes behind a start marker up to the end marker.
pub open spec fn scan(s: Seq<u8>) -> Scan
    decreases s.len(),
{
    if s.len() == 0 {
        Scan::Open
    } else if s[0] == 0x5a {
        Scan::Ended { interior: seq![], used: 1 }
    } else if s[0] == 0x5b {
        if s.len() == 1 {
            Scan::Dangling
        } else {
            preceded(seq![unescaped(s[1])], 2, scan(s.skip(2)))
        }
    } else {
        preceded(seq![s[0]], 1, scan(s.skip(1)))
    }
}

/// The length field of an unescaped interior.
pub open spec fn length_field(interior: Seq<u8>) -> nat {
    interior[0] as nat * 256 + interior[1] as nat
}

/// Checks length and checksum of an unescaped interior and takes the payload out.
pub open spec fn opened(interior: Seq<u8>) -> Result<Seq<u8>, FrameError> {
    if interior.len() < 3 || length_field(interior) != interior.len() + 2 {
        Err(FrameError::BadLength)
    } else if checksum(interior.drop_last()) != interior.last() {
        Err(
            FrameError::BadChecksum {
                expected: checksum(interior.drop_last()),
                actual: interior.last(),
            },
        )
    } else {
        Ok(interior.subrange(2, interior.len() - 1))
    }
}

/// The payload of the frame at the front of `input` and the number of bytes of that frame.
pub open spec fn decoded(input: Seq<u8>) -> Result<(Seq<u8>, nat), FrameError> {
    if input.len() == 0 {
        Err(FrameError::Truncated)
    } else if input[0] != 0x5a {
        Err(FrameError::BadStart)
    } else {
        match scan(input.skip(1)) {
            Scan::Open => Err(FrameError::Truncated),
            Scan::Dangling => Err(FrameError::BadEscape),
            Scan::Ended { interior, used } => match opened(interior) {
                Ok(payload) => Ok((payload, used + 1)),
                Err(error) => Err(error),
            },
        }
    }
}

/// Adds up the bytes, modulo 256.
fn sum_bytes(s: &[u8]) -> (r: u8)
    ensures
        r == checksum(s@),
{
    let mut sum: u8 = 0;
    let mut i: usize = 0;
    assert(s@.take(0) =~= Seq::<u8>::empty());
    while i < s.len()
        invariant
            i <= s@.len(),
            sum == checksum(s@.take(i as int)),
        decreases s@.len() - i,
    {
        proof {
            let longer = s@.take(i + 1);
            assert(longer.drop_last() =~= s@.take(i as int));
            assert(longer.last() == s@[i as int]);
        }
        sum = sum.wrapping_add(s[i]);
        i += 1;
    }
    assert(s@.take(i as int) =~= s@);
    sum
}

/// The frame that carries `payload`, as it goes over the wire.
pub fn encode(payload: &[u8]) -> (r: Vec<u8>)
    ensures
        r@ == wire(payload@),
{
    let logical_len: u16 = (payload.len() % 65536) as u16;
    let logical_len: u16 = logical_len.wrapping_add(5);
    assert(logical_len as nat == (payload@.len() + 5) % 65536);
    let mut interior: Vec<u8> = Vec::new();
    interior.push((logical_len / 256) as u8);
    interior.push((logical_len % 256) as u8);
    interior.extend_from_slice(payload);
    assert(interior@ =~= covered(payload@));
    let sum: u8 = sum_bytes(interior.as_slice());
    interior.push(sum);

    let mut out: Vec<u8> = Vec::new();
    out.push(0x5a);
    let mut i: usize = 0;
    assert(interior@.skip(0) =~= interior@);
    while i < interior.len()
        invariant
            i <= interior@.len(),
            interior@ == interior_of(payload@),
            seq![0x5au8] + escape(interior@) == out@ + escape(interior@.skip(i as int)),
        decreases interior@.len() - i,
    {
        let byte: u8 = interior[i];
        let ghost before = out@;
        if byte == 0x5a || byte == 0x5b {
            out.push(0x5b);
            out.push(byte - 0x59);
        } else {
            out.push(byte);
        }
        proof {
            assert(interior@.skip(i as int).skip(1) =~= interior@.skip(i + 1));
            assert(out@ =~= before + escape_byte(byte));
            assert(out@ + escape(interior@.skip(i + 1)) =~= before + (escape_byte(byte) + escape(
                interior@.skip(i + 1),
            )));
        }
        i += 1;
    }
    assert(interior@.skip(i as int) =~= Seq::<u8>::empty());
    assert(out@ =~= seq![0x5au8] + escape(interior@));
    out.push(0x5a);
    out
}

/// Decodes one frame from the front of `input`.
/// Returns the frame and the number of wire bytes it occupied.
pub fn decode(input: &[u8]) -> (r: Result<(Frame, usize), FrameError>)
    ensures
        match r {
            Ok((frame, used)) => decoded(input@) == Ok::<_, FrameError>(
                (frame.payload@, used as nat),
            ) && used <= input@.len(),
            Err(error) => decoded(input@) == Err::<(Seq<u8>, nat), _>(error),
        },
{
    if input.len() == 0 {
        return Err(FrameError::Truncated);
    }
    if input[0] != 0x5a {
        return Err(FrameError::BadStart);
    }
    let mut interior: Vec<u8> = Vec::new();
    let mut index: usize = 1;
    let mut ended: bool = false;
    assert(preceded(interior@, 0, scan(input@.skip(1))) == scan(input@.skip(1))) by {
        lemma_preceded_empty(scan(input@.skip(1)));
    }
    while index < input.len() && !ended
        invariant
            1 <= index <= input@.len(),
            input@[0] == 0x5a,
            !ended ==> scan(input@.skip(1)) == preceded(
                interior@,
                (index - 1) as nat,
                scan(input@.skip(index as int)),
            ),
            ended ==> scan(input@.skip(1)) == (Scan::Ended {
                interior: interior@,
                used: (index - 1) as nat,
            }),
        decreases input@.len() - index,
    {
        let byte: u8 = input[index];
        let ghost rest = input@.skip(index as int);
        let ghost before = interior@;
        assert(rest[0] == byte);
        if byte == 0x5b {
            if input.len() - index == 1 {
                return Err(FrameError::BadEscape);
            }
            let b: u8 = input[index + 1];
            interior.push(b.wrapping_add(0x59));
            proof {
                assert(rest[1] == b);
                assert(rest.skip(2) =~= input@.skip(index + 2));
                assert(interior@ =~= before + seq![unescaped(b)]);
                lemma_preceded_twice(
                    before,
                    (index - 1) as nat,
                    seq![unescaped(b)],
                    2,
                    scan(rest.skip(2)),
                );
            }
            index += 2;
        } else if byte == 0x5a {
            ended = true;
            index += 1;
            assert(before + Seq::<u8>::empty() =~= before);
        } else {
            interior.push(byte);
            proof {
                assert(rest.skip(1) =~= input@.skip(index + 1));
                assert(interior@ =~= before + seq![byte]);
                lemma_preceded_twice(
                    before,
                    (index - 1) as nat,
                    seq![byte],
                    1,
                    scan(rest.skip(1)),
                );
            }
            index += 1;
        }
    }
    if !ended {
        assert(input@.skip(index as int) =~= Seq::<u8>::empty());
        return Err(FrameError::Truncated);
    }
    if interior.len() < 3 {
        return Err(FrameError::BadLength);
    }
    let logical_len: usize = interior[0] as usize * 256 + interior[1] as usize;
    if logical_len < 2 || logical_len - 2 != interior.len() {
        return Err(FrameError::BadLength);
    }
    let last: usize = interior.len() - 1;
    let actual: u8 = interior[last];
    let expected: u8 = sum_bytes(vstd::slice::slice_subrange(interior.as_slice(), 0, last));
    assert(interior@.subrange(0, last as int) =~= interior@.drop_last());
    if actual != expected {
        return Err(FrameError::BadChecksum { expected, actual });
    }
    let payload: Vec<u8> = vstd::slice::slice_to_vec(
        vstd::slice::slice_subrange(interior.as_slice(), 2, last),
    );
    Ok((Frame { payload }, index))
}

proof fn lemma_preceded_empty(s: Scan)
    ensures
        preceded(Seq::<u8>::empty(), 0, s) == s,
{
    match s {
        Scan::Ended { interior, used } => {
            assert(Seq::<u8>::empty() + interior =~= interior);
        },
        _ => {},
    }
}

proof fn lemma_preceded_twice(a: Seq<u8>, m: nat, b: Seq<u8>, n: nat, s: Scan)
    ensures
        preceded(a, m, preceded(b, n, s)) == preceded(a + b, m + n, s),
{
    match s {
        Scan::Ended { interior, used } => {
            assert(a + (b + interior) =~= (a + b) + interior);
        },
        _ => {},
    }
}

/// Escaped bytes scan back to the bytes they were made of.
proof fn lemma_scan_escaped(s: Seq<u8>, rest: Seq<u8>)
    ensures
        scan(escape(s) + seq![0x5au8] + rest) == (Scan::Ended {
            interior: s,
            used: escape(s).len() + 1,
        }),
    decreases s.len(),
{
    let all = escape(s) + seq![0x5au8] + rest;
    if s.len() == 0 {
        assert(all[0] == 0x5a);
        assert(s =~= Seq::<u8>::empty());
    } else {
        let tail = escape(s.skip(1)) + seq![0x5au8] + rest;
        let head = escape_byte(s[0]);
        lemma_scan_escaped(s.skip(1), rest);
        assert(all =~= head + tail);
        assert(all.skip(head.len() as int) =~= tail);
        assert(seq![s[0]] + s.skip(1) =~= s);
        if s[0] == 0x5a {
            assert(all[0] == 0x5b && all[1] == 0x01);
            assert(unescaped(0x01u8) == 0x5a);
        } else if s[0] == 0x5b {
            assert(all[0] == 0x5b && all[1] == 0x02);
            assert(unescaped(0x02u8) == 0x5b);
        } else {
            assert(all[0] == s[0]);
        }
    }
}

proof fn lemma_interior_opens(payload: Seq<u8>)
    ensures
        payload.len() + 5 <= 0xffff ==> opened(interior_of(payload)) == Ok::<_, FrameError>(
            payload,
        ),
        payload.len() + 5 > 0xffff ==> opened(interior_of(payload)) == Err::<Seq<u8>, _>(
            FrameError::BadLength,
        ),
{
    let interior = interior_of(payload);
    let n = payload.len() + 5;
    assert(interior.drop_last() =~= covered(payload));
    assert(interior[0] == (n / 256 % 256) as u8);
    assert(interior[1] == (n % 256) as u8);
    assert(length_field(interior) == n % 65536);
    assert(interior.subrange(2, interior.len() - 1) =~= payload);
}

/// A frame decodes back to the payload it was made of, whatever bytes follow it, and takes up
/// exactly its own bytes.
pub proof fn law_decode_undoes_encode(payload: Seq<u8>, rest: Seq<u8>)
    requires
        payload.len() + 5 <= 0xffff,
    ensures
        decoded(wire(payload) + rest) == Ok::<_, FrameError>((payload, wire(payload).len())),
{
    let all = wire(payload) + rest;
    lemma_scan_escaped(interior_of(payload), rest);
    assert(all.skip(1) =~= escape(interior_of(payload)) + seq![0x5au8] + rest);
    lemma_interior_opens(payload);
}

/// A payload that the length field cannot count makes a frame that is refused.
pub proof fn law_oversized_frame_is_refused(payload: Seq<u8>, rest: Seq<u8>)
    requires
        payload.len() + 5 > 0xffff,
    ensures
        decoded(wire(payload) + rest) == Err::<(Seq<u8>, nat), _>(FrameError::BadLength),
{
    let all = wire(payload) + rest;
    lemma_scan_escaped(interior_of(payload), rest);
    assert(all.skip(1) =~= escape(interior_of(payload)) + seq![0x5au8] + rest);
    lemma_interior_opens(payload);
}

proof fn lemma_escape_holds_no_marker(s: Seq<u8>)
    ensures
        forall|i: int| 0 <= i < escape(s).len() ==> #[trigger] escape(s)[i] != 0x5a,
    decreases s.len(),
{
    if s.len() > 0 {
        lemma_escape_holds_no_marker(s.skip(1));
        assert forall|i: int| 0 <= i < escape(s).len() implies #[trigger] escape(s)[i] != 0x5a by {
            let head = escape_byte(s[0]);
            if i >= head.len() {
                assert(escape(s)[i] == escape(s.skip(1))[i - head.len()]);
            }
        }
    }
}

/// No byte inside a frame can look like a marker: `5A` stands at the two ends and nowhere else.
pub proof fn law_markers_only_at_the_ends(payload: Seq<u8>, i: int)
    requires
        0 <= i < wire(payload).len(),
    ensures
        wire(payload)[i] == 0x5a <==> (i == 0 || i == wire(payload).len() - 1),
{
    lemma_escape_holds_no_marker(interior_of(payload));
    if 0 < i < wire(payload).len() - 1 {
        assert(wire(payload)[i] == escape(interior_of(payload))[i - 1]);
    }
}

proof fn lemma_scan_part_of_escape(s: Seq<u8>, k: int)
    requires
        0 <= k <= escape(s).len(),
    ensures
        scan(escape(s).take(k)) == if k > 0 && escape(s)[k - 1] == 0x5b {
            Scan::Dangling
        } else {
            Scan::Open
        },
    decreases s.len(),
{
    if k > 0 {
        let head = escape_byte(s[0]);
        let tail = escape(s.skip(1));
        let n = head.len() as int;
        let part = escape(s).take(k);
        assert(part[0] == head[0]);
        if k >= n {
            lemma_scan_part_of_escape(s.skip(1), k - n);
            assert(part.skip(n) =~= tail.take(k - n));
            if k > n {
                assert(escape(s)[k - 1] == tail[k - n - 1]);
            } else {
                assert(escape(s)[k - 1] == head[n - 1]);
            }
        }
    }
}

/// A frame that has not arrived whole is reported as incomplete, never as a bad frame: inside an
/// escape where the last byte is `5B`, and cut short anywhere else.
pub proof fn law_part_of_a_frame_is_incomplete(payload: Seq<u8>, k: int)
    requires
        0 <= k < wire(payload).len(),
    ensures
        decoded(wire(payload).take(k)) == Err::<(Seq<u8>, nat), _>(
            if k > 0 && wire(payload)[k - 1] == 0x5b {
                FrameError::BadEscape
            } else {
                FrameError::Truncated
            },
        ),
{
    if k > 0 {
        let inside = escape(interior_of(payload));
        let part = wire(payload).take(k);
        lemma_scan_part_of_escape(interior_of(payload), k - 1);
        assert(part.skip(1) =~= inside.take(k - 1));
        if k > 1 {
            assert(wire(payload)[k - 1] == inside[k - 2]);
        }
    }
}

proof fn lemma_scan_reads_front(s: Seq<u8>, rest: Seq<u8>)
    ensures
        match scan(s) {
            Scan::Ended { interior, used } => {
                &&& 1 <= used <= s.len()
                &&& s[used - 1] == 0x5a
                &&& interior.len() < used
                &&& scan(s.take(used as int) + rest) == scan(s)
            },
            _ => true,
        },
    decreases s.len(),
{
    match scan(s) {
        Scan::Ended { interior, used } => {
            if s[0] == 0x5a {
                assert((s.take(1) + rest)[0] == 0x5a);
            } else {
                let n: int = if s[0] == 0x5b {
                    2
                } else {
                    1
                };
                lemma_scan_reads_front(s.skip(n), rest);
                let front = s.take(used as int) + rest;
                assert(front.skip(n) =~= s.skip(n).take(used - n) + rest);
                assert(front[0] == s[0]);
                assert(n == 2 ==> front[1] == s[1]);
            }
        },
        _ => {},
    }
}

/// Decoding reads one frame from the front. Once there is enough to tell whether it is good, the
/// bytes behind it do not matter. A good frame begins and ends with a marker, and any other bytes
/// may follow it.
pub proof fn law_decode_reads_the_front(input: Seq<u8>, rest: Seq<u8>)
    requires
        decoded(input) != Err::<(Seq<u8>, nat), _>(FrameError::Truncated),
        decoded(input) != Err::<(Seq<u8>, nat), _>(FrameError::BadEscape),
    ensures
        decoded(input + rest) == decoded(input),
        decoded(input) matches Ok((payload, used)) ==> {
            &&& payload.len() + 5 <= used <= input.len()
            &&& input[0] == 0x5a
            &&& input[used - 1] == 0x5a
            &&& decoded(input.take(used as int) + rest) == decoded(input)
        },
{
    assert((input + rest)[0] == input[0]);
    if input[0] == 0x5a {
        let s = input.skip(1);
        lemma_scan_reads_front(s, rest);
        let used = scan(s)->used;
        let behind = s.skip(used as int) + rest;
        lemma_scan_reads_front(s, behind);
        assert((input + rest).skip(1) =~= s.take(used as int) + behind);
        let front = input.take(used as int + 1) + rest;
        assert(front.skip(1) =~= s.take(used as int) + rest);
        assert(front[0] == 0x5a);
    }
}

/// Every escape in the bytes behind a start marker, up to the end marker, is one of the two that
/// encoding writes.
pub open spec fn plain_escapes(s: Seq<u8>) -> bool
    decreases s.len(),
{
    if s.len() == 0 || s[0] == 0x5a {
        true
    } else if s[0] == 0x5b {
        s.len() > 1 && (s[1] == 0x01 || s[1] == 0x02) && plain_escapes(s.skip(2))
    } else {
        plain_escapes(s.skip(1))
    }
}

proof fn lemma_scan_then_escape(s: Seq<u8>)
    requires
        plain_escapes(s),
    ensures
        match scan(s) {
            Scan::Ended { interior, used } => {
                &&& used <= s.len()
                &&& s.take(used as int) == escape(interior) + seq![0x5au8]
            },
            _ => true,
        },
    decreases s.len(),
{
    match scan(s) {
        Scan::Ended { interior, used } => {
            if s[0] == 0x5a {
                assert(s.take(1) =~= escape(interior) + seq![0x5au8]);
            } else {
                let n: int = if s[0] == 0x5b {
                    2
                } else {
                    1
                };
                lemma_scan_then_escape(s.skip(n));
                let b = interior[0];
                assert(interior.skip(1) =~= (scan(s.skip(n))->interior));
                assert(unescaped(0x01u8) == 0x5a);
                assert(unescaped(0x02u8) == 0x5b);
                assert(s.take(n) =~= escape_byte(b));
                assert(s.take(used as int) =~= s.take(n) + s.skip(n).take(used - n));
                assert(escape(interior) + seq![0x5au8] =~= escape_byte(b) + (escape(
                    interior.skip(1),
                ) + seq![0x5au8]));
            }
        },
        _ => {},
    }
}

/// Encoding what was decoded gives the same bytes back, where the frame escapes only `5A` and
/// `5B`.
pub proof fn law_encode_undoes_decode(input: Seq<u8>)
    requires
        decoded(input) is Ok,
        plain_escapes(input.skip(1)),
    ensures
        wire(decoded(input)->Ok_0.0) == input.take(decoded(input)->Ok_0.1 as int),
{
    let s = input.skip(1);
    lemma_scan_then_escape(s);
    lemma_scan_reads_front(s, seq![]);
    let interior = scan(s)->interior;
    let (payload, used) = decoded(input)->Ok_0;
    let n = payload.len() + 5;
    assert(length_field(interior) == n);
    assert(big_endian(n) =~= seq![interior[0], interior[1]]);
    assert(covered(payload) =~= interior.drop_last());
    assert(interior_of(payload) =~= interior);
    assert(input.take(used as int) =~= seq![0x5au8] + s.take(used - 1));
    assert(wire(payload) =~= seq![0x5au8] + (escape(interior) + seq![0x5au8]));
}

/// The sum of some bytes.
pub open spec fn byte_sum(s: Seq<u8>) -> int {
    s.fold_left(0int, |sum: int, b: u8| sum + b)
}

proof fn lemma_byte_sum(s: Seq<u8>)
    ensures
        byte_sum(s) == total(s),
    decreases s.len(),
{
    let f = |sum: int, b: u8| sum + b;
    if s.len() > 0 {
        lemma_byte_sum(s.drop_last());
        assert(s.fold_left(0int, f) == f(s.drop_last().fold_left(0int, f), s.last()));
    }
}

proof fn lemma_total_splits(a: Seq<u8>, b: Seq<u8>)
    ensures
        total(a + b) == total(a) + total(b),
    decreases b.len(),
{
    if b.len() > 0 {
        lemma_total_splits(a, b.drop_last());
        assert((a + b).drop_last() =~= a + b.drop_last());
    } else {
        assert(a + b =~= a);
    }
}

proof fn lemma_flatten_front<A>(s: Seq<Seq<A>>)
    ensures
        s.len() > 0 ==> s.flatten() == s[0] + s.skip(1).flatten(),
        s.len() == 0 ==> s.flatten() == Seq::<A>::empty(),
{
    if s.len() > 0 {
        assert(s.drop_first() =~= s.skip(1));
        assert(s.first() == s[0]);
    }
}

proof fn lemma_escape_is_flat(s: Seq<u8>)
    ensures
        escape(s) == s.map_values(
            |b: u8|
                if b == 0x5a {
                    seq![0x5bu8, 0x01u8]
                } else if b == 0x5b {
                    seq![0x5bu8, 0x02u8]
                } else {
                    seq![b]
                },
        ).flatten(),
    decreases s.len(),
{
    let f = |b: u8|
        if b == 0x5a {
            seq![0x5bu8, 0x01u8]
        } else if b == 0x5b {
            seq![0x5bu8, 0x02u8]
        } else {
            seq![b]
        };
    let m = s.map_values(f);
    lemma_flatten_front(m);
    if s.len() > 0 {
        lemma_escape_is_flat(s.skip(1));
        assert(m.skip(1) =~= s.skip(1).map_values(f));
        assert(m[0] == f(s[0]));
    }
}

/// A frame is the marker, the two bytes of its length, the payload, the sum of all of these bytes
/// in its low 8 bits, and the marker. The length counts five bytes beside the payload. Between the
/// markers `5A` stands as `5B 01` and `5B` as `5B 02`, and every other byte as it is.
pub proof fn law_frame_holds_length_payload_and_sum(payload: &[u8], r: Vec<u8>)
    requires
        call_ensures(encode, (payload,), r),
        payload@.len() <= 65530,
    ensures
        ({
            let n = payload@.len() as int + 5;
            let sum = n / 256 + n % 256 + byte_sum(payload@);
            let inside = seq![(n / 256) as u8, (n % 256) as u8] + payload@ + seq![(sum % 256) as u8];
            r@ == seq![0x5au8] + inside.map_values(
                |b: u8|
                    if b == 0x5a {
                        seq![0x5bu8, 0x01u8]
                    } else if b == 0x5b {
                        seq![0x5bu8, 0x02u8]
                    } else {
                        seq![b]
                    },
            ).flatten() + seq![0x5au8]
        }),
{
    let n = payload@.len() as int + 5;
    let sum = n / 256 + n % 256 + byte_sum(payload@);
    let inside = seq![(n / 256) as u8, (n % 256) as u8] + payload@ + seq![(sum % 256) as u8];
    let field = seq![(n / 256) as u8, (n % 256) as u8];
    lemma_byte_sum(payload@);
    lemma_total_splits(field, payload@);
    lemma_total_of_two(field);
    assert(covered(payload@) =~= field + payload@);
    assert(interior_of(payload@) =~= inside);
    lemma_escape_is_flat(inside);
}

proof fn lemma_total_of_two(s: Seq<u8>)
    requires
        s.len() == 2,
    ensures
        total(s) == s[0] + s[1],
{
    reveal_with_fuel(total, 3);
    assert(s.drop_last().drop_last() =~= Seq::<u8>::empty());
}

/// The bytes that stand for `units` between the markers: a unit is a byte as it is, or a byte
/// behind an escape.
pub open spec fn unit_bytes(units: Seq<(bool, u8)>) -> Seq<u8> {
    units.map_values(
        |u: (bool, u8)|
            if u.0 {
                seq![0x5bu8, u.1]
            } else {
                seq![u.1]
            },
    ).flatten()
}

/// The bytes that `units` mean: behind an escape, a byte means the one that is `59` larger.
pub open spec fn unit_values(units: Seq<(bool, u8)>) -> Seq<u8> {
    units.map_values(
        |u: (bool, u8)|
            if u.0 {
                ((u.1 as int + 0x59) % 256) as u8
            } else {
                u.1
            },
    )
}

/// No byte that stands as it is looks like a marker or an escape.
pub open spec fn are_units(units: Seq<(bool, u8)>) -> bool {
    forall|i: int|
        0 <= i < units.len() && !(#[trigger] units[i]).0 ==> units[i].1 != 0x5a && units[i].1
            != 0x5b
}

proof fn lemma_scan_units(units: Seq<(bool, u8)>, rest: Seq<u8>)
    requires
        are_units(units),
    ensures
        scan(unit_bytes(units) + rest) == preceded(
            unit_values(units),
            unit_bytes(units).len(),
            scan(rest),
        ),
    decreases units.len(),
{
    let m = units.map_values(
        |u: (bool, u8)|
            if u.0 {
                seq![0x5bu8, u.1]
            } else {
                seq![u.1]
            },
    );
    lemma_flatten_front(m);
    if units.len() == 0 {
        assert(unit_bytes(units) + rest =~= rest);
        assert(unit_values(units) =~= Seq::<u8>::empty());
        lemma_preceded_empty(scan(rest));
    } else {
        let tail = units.skip(1);
        assert forall|i: int| 0 <= i < tail.len() && !(#[trigger] tail[i]).0 implies tail[i].1
            != 0x5a && tail[i].1 != 0x5b by {
            assert(tail[i] == units[i + 1]);
        }
        lemma_scan_units(tail, rest);
        assert(m.skip(1) =~= tail.map_values(
            |u: (bool, u8)|
                if u.0 {
                    seq![0x5bu8, u.1]
                } else {
                    seq![u.1]
                },
        ));
        let all = unit_bytes(units) + rest;
        let u = units[0];
        let head = m[0];
        assert(all =~= head + (unit_bytes(tail) + rest));
        assert(all.skip(head.len() as int) =~= unit_bytes(tail) + rest);
        assert(all[0] == head[0]);
        let value = unit_values(units)[0];
        assert(unit_values(units) =~= seq![value] + unit_values(tail));
        lemma_preceded_twice(
            seq![value],
            head.len(),
            unit_values(tail),
            unit_bytes(tail).len(),
            scan(rest),
        );
    }
}

/// A frame that has arrived whole is taken exactly where its length counts all of its bytes and
/// its last byte is the low 8 bits of the sum of the others, both length bytes among them. Any
/// escape is read, and the bytes behind the frame do not matter.
pub proof fn law_frames_are_held_to_length_and_sum(
    input: &[u8],
    units: Seq<(bool, u8)>,
    rest: Seq<u8>,
    r: Result<(Frame, usize), FrameError>,
)
    requires
        call_ensures(decode, (input,), r),
        are_units(units),
        input@ == seq![0x5au8] + unit_bytes(units) + seq![0x5au8] + rest,
    ensures
        ({
            let v = unit_values(units);
            let n = v.len() as int;
            let sum = byte_sum(v.take(n - 1)) % 256;
            if n < 3 || v[0] * 256 + v[1] != n + 2 {
                r == Err::<(Frame, usize), _>(FrameError::BadLength)
            } else if v[n - 1] != sum {
                r == Err::<(Frame, usize), _>(
                    FrameError::BadChecksum { expected: sum as u8, actual: v[n - 1] },
                )
            } else {
                r matches Ok((frame, used)) && frame.payload@ == v.subrange(2, n - 1) && used
                    == unit_bytes(units).len() + 2
            }
        }),
{
    let v = unit_values(units);
    let behind = seq![0x5au8] + rest;
    lemma_scan_units(units, behind);
    assert(input@.skip(1) =~= unit_bytes(units) + behind);
    assert(scan(behind) == (Scan::Ended { interior: seq![], used: 1 }));
    assert(v + Seq::<u8>::empty() =~= v);
    if v.len() >= 1 {
        assert(v.drop_last() =~= v.take(v.len() - 1));
        lemma_byte_sum(v.drop_last());
    }
}

/// A frame whose end has not arrived is incomplete, inside an escape or not; bytes that begin with
/// no marker are no frame, and no bytes at all are an incomplete one.
pub proof fn law_frames_without_an_end_are_incomplete(
    input: &[u8],
    units: Seq<(bool, u8)>,
    cut: bool,
    r: Result<(Frame, usize), FrameError>,
)
    requires
        call_ensures(decode, (input,), r),
        are_units(units),
    ensures
        input@.len() == 0 ==> r == Err::<(Frame, usize), _>(FrameError::Truncated),
        input@.len() > 0 && input@[0] != 0x5a ==> r == Err::<(Frame, usize), _>(
            FrameError::BadStart,
        ),
        input@ == seq![0x5au8] + unit_bytes(units) + (if cut {
            seq![0x5bu8]
        } else {
            seq![]
        }) ==> r == Err::<(Frame, usize), _>(
            if cut {
                FrameError::BadEscape
            } else {
                FrameError::Truncated
            },
        ),
{
    let tail = if cut {
        seq![0x5bu8]
    } else {
        seq![]
    };
    lemma_scan_units(units, tail);
    if input@ == seq![0x5au8] + unit_bytes(units) + tail {
        assert(input@.skip(1) =~= unit_bytes(units) + tail);
    }
}

/// Each error has its own words, and a wrong checksum names both bytes: the one that was found
/// first, and then the one that the frame should have.
pub proof fn law_frame_errors_in_words(error: &FrameError, r: String)
    requires
        call_ensures(FrameError::message, (error,), r),
    ensures
        *error == FrameError::Truncated ==> r@ == "frame is incomplete"@,
        *error == FrameError::BadStart ==> r@ == "frame does not start with 5A"@,
        *error == FrameError::BadLength ==> r@ == "frame length does not match its header"@,
        *error == FrameError::BadEscape ==> r@ == "frame escape byte is incomplete"@,
        *error matches FrameError::BadChecksum { expected, actual } ==> r@ == "checksum was "@
            + hex_byte(actual) + ", expected "@ + hex_byte(expected),
{
}

} // verus!
