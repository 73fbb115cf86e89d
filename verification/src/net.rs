//! The wire framing shared by the server and the client, and the input
//! message a client uploads.
//!
//! TCP is a byte stream, not discrete messages, so every payload travels
//! behind a 4-byte big-endian length prefix. A receiver keeps the bytes it
//! has read so far in a buffer and takes complete messages off its front:
//! a message can arrive split across several reads, or several can arrive
//! in one.
use crate::input::{Button, InputState};
use vstd::prelude::*;
use vstd::slice::{slice_subrange, slice_to_vec};

verus! {

/// The big-endian number held in the four bytes of `buf` starting at `at`.
pub open spec fn be32_at(buf: Seq<u8>, at: int) -> int {
    buf[at] * 0x100_0000 + buf[at + 1] * 0x1_0000 + buf[at + 2] * 0x100 + buf[at + 3]
}

/// The four big-endian bytes of `n`, which is below 2^32.
pub open spec fn be32_bytes(n: int) -> Seq<u8> {
    seq![
        (n / 0x100_0000) as u8,
        (n / 0x1_0000 % 0x100) as u8,
        (n / 0x100 % 0x100) as u8,
        (n % 0x100) as u8,
    ]
}

/// The bytes sent for one message: its length (kept to 32 bits), then the payload.
pub open spec fn encoded_frame(payload: Seq<u8>) -> Seq<u8> {
    be32_bytes(payload.len() as int % 0x1_0000_0000) + payload
}

/// The complete messages at the front of `buf`, in order, and the bytes
/// after them that do not yet form a complete message.
pub open spec fn split_frames(buf: Seq<u8>) -> (Seq<Seq<u8>>, Seq<u8>)
    decreases buf.len(),
{
    if buf.len() < 4 {
        (Seq::empty(), buf)
    } else if buf.len() < 4 + be32_at(buf, 0) {
        (Seq::empty(), buf)
    } else {
        let end = 4 + be32_at(buf, 0);
        let rest = split_frames(buf.subrange(end, buf.len() as int));
        (seq![buf.subrange(4, end)] + rest.0, rest.1)
    }
}

/// Frame one message for sending: a 4-byte big-endian length, then the
/// payload. The length is the payload's length kept to its low 32 bits.
pub fn encode_frame(payload: &[u8]) -> (bytes: Vec<u8>)
    ensures
        bytes@ == encoded_frame(payload@),
{
    let n: u64 = (payload.len() as u64) % 0x1_0000_0000;
    let mut bytes: Vec<u8> = Vec::new();
    bytes.push((n / 0x100_0000) as u8);
    bytes.push((n / 0x1_0000 % 0x100) as u8);
    bytes.push((n / 0x100 % 0x100) as u8);
    bytes.push((n % 0x100) as u8);
    let mut i: usize = 0;
    while i < payload.len()
        invariant
            0 <= i <= payload@.len(),
            n == payload@.len() as int % 0x1_0000_0000,
            bytes@ == be32_bytes(n as int) + payload@.subrange(0, i as int),
        decreases payload@.len() - i,
    {
        bytes.push(payload[i]);
        i = i + 1;
        assert(bytes@ =~= be32_bytes(n as int) + payload@.subrange(0, i as int));
    }
    assert(payload@.subrange(0, payload@.len() as int) =~= payload@);
    bytes
}

/// Take every complete message off the front of `buffer`, in the order
/// they arrived, and leave only the bytes of a message that has not fully
/// arrived yet.
pub fn drain_framed(buffer: &mut Vec<u8>) -> (payloads: Vec<Vec<u8>>)
    ensures
        payloads@.map_values(|p: Vec<u8>| p@) == split_frames(old(buffer)@).0,
        final(buffer)@ == split_frames(old(buffer)@).1,
{
    let ghost all = buffer@;
    let mut payloads: Vec<Vec<u8>> = Vec::new();
    let mut start: usize = 0;
    assert(all.subrange(0, all.len() as int) =~= all);
    assert(payloads@.map_values(|p: Vec<u8>| p@) + split_frames(all).0 =~= split_frames(all).0);
    loop
        invariant_except_break
            0 <= start <= all.len(),
            buffer@ == all,
            payloads@.map_values(|p: Vec<u8>| p@) + split_frames(
                all.subrange(start as int, all.len() as int),
            ).0 == split_frames(all).0,
            split_frames(all.subrange(start as int, all.len() as int)).1 == split_frames(all).1,
        ensures
            0 <= start <= all.len(),
            buffer@ == all,
            payloads@.map_values(|p: Vec<u8>| p@) == split_frames(all).0,
            all.subrange(start as int, all.len() as int) == split_frames(all).1,
        decreases all.len() - start,
    {
        let ghost rest = all.subrange(start as int, all.len() as int);
        let available = buffer.len() - start;
        if available < 4 {
            assert(split_frames(rest) == (Seq::<Seq<u8>>::empty(), rest));
            assert(payloads@.map_values(|p: Vec<u8>| p@) =~= split_frames(all).0);
            break;
        }
        let len: u64 = (buffer[start] as u64) * 0x100_0000 + (buffer[start + 1] as u64) * 0x1_0000
            + (buffer[start + 2] as u64) * 0x100 + (buffer[start + 3] as u64);
        assert(len == be32_at(rest, 0));
        if (available as u64) < 4 + len {
            assert(split_frames(rest) == (Seq::<Seq<u8>>::empty(), rest));
            assert(payloads@.map_values(|p: Vec<u8>| p@) =~= split_frames(all).0);
            break;
        }
        let end: usize = start + 4 + len as usize;
        let payload = slice_to_vec(slice_subrange(buffer.as_slice(), start + 4, end));
        let ghost before = payloads@.map_values(|p: Vec<u8>| p@);
        payloads.push(payload);
        proof {
            let next = all.subrange(end as int, all.len() as int);
            assert(rest.subrange(4 + len, rest.len() as int) =~= next);
            assert(rest.subrange(4, 4 + len) =~= payload@);
            assert(payloads@.map_values(|p: Vec<u8>| p@) =~= before.push(payload@));
            assert(seq![payload@] + split_frames(next).0 == split_frames(rest).0);
            assert(before.push(payload@) + split_frames(next).0 =~= before + (seq![payload@]
                + split_frames(next).0));
        }
        start = end;
    }
    let remainder = slice_to_vec(slice_subrange(buffer.as_slice(), start, buffer.len()));
    *buffer = remainder;
    payloads
}


proof fn lemma_be32_round_trip(n: int)
    requires
        0 <= n < 0x1_0000_0000,
    ensures
        be32_at(be32_bytes(n), 0) == n,
        be32_bytes(n).len() == 4,
{
    let b = be32_bytes(n);
    assert(0 <= n / 0x100_0000 < 0x100);
    assert(b[0] == n / 0x100_0000);
    assert(b[1] == n / 0x1_0000 % 0x100);
    assert(b[2] == n / 0x100 % 0x100);
    assert(b[3] == n % 0x100);
    assert((n / 0x100_0000) * 0x100_0000 + (n / 0x1_0000 % 0x100) * 0x1_0000 + (n / 0x100 % 0x100)
        * 0x100 + n % 0x100 == n) by (nonlinear_arith)
        requires
            0 <= n < 0x1_0000_0000,
    ;
}

/// A framed message followed by any further bytes is read back as that
/// exact message, followed by whatever the further bytes hold.
pub proof fn law_frame_round_trip(payload: Seq<u8>, rest: Seq<u8>)
    requires
        payload.len() < 0x1_0000_0000,
    ensures
        split_frames(encoded_frame(payload) + rest) == (
            seq![payload] + split_frames(rest).0,
            split_frames(rest).1,
        ),
{
    let n = payload.len() as int;
    lemma_be32_round_trip(n);
    let buf = encoded_frame(payload) + rest;
    assert(be32_at(buf, 0) == be32_at(be32_bytes(n), 0));
    assert(buf.subrange(4, 4 + n) =~= payload);
    assert(buf.subrange(4 + n, buf.len() as int) =~= rest);
}

/// Until every byte of a message has arrived, nothing is taken off the
/// buffer: the partial message waits there for the rest of its bytes.
pub proof fn law_partial_frame_waits(payload: Seq<u8>, arrived: Seq<u8>)
    requires
        payload.len() < 0x1_0000_0000,
        arrived.len() < encoded_frame(payload).len(),
        arrived == encoded_frame(payload).subrange(0, arrived.len() as int),
    ensures
        split_frames(arrived) == (Seq::<Seq<u8>>::empty(), arrived),
{
    let n = payload.len() as int;
    lemma_be32_round_trip(n);
    if arrived.len() >= 4 {
        assert(be32_at(arrived, 0) == be32_at(be32_bytes(n), 0));
    }
}

/// Bytes may arrive in any split: reading `first`, then reading the
/// leftover with `second` appended, takes off exactly the messages (in
/// order) and leaves exactly the remainder that reading both at once would.
pub proof fn law_framing_split_arrival(first: Seq<u8>, second: Seq<u8>)
    ensures
        ({
            let (early, leftover) = split_frames(first);
            let (late, remainder) = split_frames(leftover + second);
            split_frames(first + second) == (early + late, remainder)
        }),
    decreases first.len(),
{
    let (early, leftover) = split_frames(first);
    let whole = first + second;
    if first.len() < 4 || first.len() < 4 + be32_at(first, 0) {
        assert(early =~= Seq::<Seq<u8>>::empty());
        assert(leftover == first);
        assert(early + split_frames(leftover + second).0 =~= split_frames(leftover + second).0);
    } else {
        let end = 4 + be32_at(first, 0);
        let tail = first.subrange(end, first.len() as int);
        assert(be32_at(whole, 0) == be32_at(first, 0));
        assert(whole.subrange(4, end) =~= first.subrange(4, end));
        assert(whole.subrange(end, whole.len() as int) =~= tail + second);
        law_framing_split_arrival(tail, second);
        let (t_early, t_left) = split_frames(tail);
        assert(early == seq![first.subrange(4, end)] + t_early);
        assert(leftover == t_left);
        let late = split_frames(leftover + second).0;
        assert(seq![first.subrange(4, end)] + (t_early + late) =~= early + late);
    }
}

/// One input message, sent client to server: which of the four movement
/// buttons the client holds. A client reports intent, never its own state.
#[derive(Clone, Copy, PartialEq, Eq, Debug, Structural)]
pub struct InputUpload {
    pub up: bool,
    pub down: bool,
    pub left: bool,
    pub right: bool,
}

impl InputUpload {
    /// The buttons this message reports as held.
    pub open spec fn held(self) -> Set<Button> {
        Set::new(
            |b: Button|
                match b {
                    Button::Up => self.up,
                    Button::Down => self.down,
                    Button::Left => self.left,
                    Button::Right => self.right,
                },
        )
    }

    /// The message that reports exactly the buttons in `held`.
    pub open spec fn of_held(held: Set<Button>) -> InputUpload {
        InputUpload {
            up: held.contains(Button::Up),
            down: held.contains(Button::Down),
            left: held.contains(Button::Left),
            right: held.contains(Button::Right),
        }
    }

    /// The message a client sends for its currently held input.
    pub fn from_input(input: &InputState) -> (upload: InputUpload)
        ensures
            upload == InputUpload::of_held(input@),
            upload.held() == input@,
    {
        let upload = InputUpload {
            up: input.is_held(Button::Up),
            down: input.is_held(Button::Down),
            left: input.is_held(Button::Left),
            right: input.is_held(Button::Right),
        };
        assert(upload.held() =~= input@) by {
            assert forall|b: Button| upload.held().contains(b) == input@.contains(b) by {
                match b {
                    Button::Up => {},
                    Button::Down => {},
                    Button::Left => {},
                    Button::Right => {},
                }
            }
        }
        upload
    }

    /// The input state the server applies for a received message: exactly
    /// the buttons it reports are held.
    pub fn to_input(&self) -> (input: InputState)
        ensures
            input@ == self.held(),
    {
        let mut input = InputState::new();
        input.set(Button::Up, self.up);
        input.set(Button::Down, self.down);
        input.set(Button::Left, self.left);
        input.set(Button::Right, self.right);
        assert(input@ =~= self.held()) by {
            assert forall|b: Button| input@.contains(b) == self.held().contains(b) by {
                match b {
                    Button::Up => {},
                    Button::Down => {},
                    Button::Left => {},
                    Button::Right => {},
                }
            }
        }
        input
    }
}


/// A client's held buttons survive the trip to the server unchanged: the
/// server applies exactly the buttons the client held, and a message
/// rebuilt from what it reports is the same message.
pub proof fn law_upload_round_trip(held: Set<Button>, upload: InputUpload)
    ensures
        InputUpload::of_held(held).held() == held,
        InputUpload::of_held(upload.held()) == upload,
{
    assert forall|b: Button| InputUpload::of_held(held).held().contains(b) == held.contains(b) by {
        match b {
            Button::Up => {},
            Button::Down => {},
            Button::Left => {},
            Button::Right => {},
        }
    }
    assert(InputUpload::of_held(held).held() =~= held);
}

/// A framed message is its length as four big-endian bytes, most
/// significant first, then the payload byte for byte.
pub proof fn law_length_prefix_is_big_endian(payload: Seq<u8>)
    requires
        payload.len() < 0x1_0000_0000,
    ensures
        encoded_frame(payload).len() == payload.len() + 4,
        encoded_frame(payload)[0] as int * 0x100_0000 + encoded_frame(payload)[1] as int * 0x1_0000
            + encoded_frame(payload)[2] as int * 0x100 + encoded_frame(payload)[3] as int
            == payload.len(),
        encoded_frame(payload).subrange(4, payload.len() + 4int) == payload,
{
    let n = payload.len() as int;
    lemma_be32_round_trip(n);
    let f = encoded_frame(payload);
    let b = be32_bytes(n);
    assert(f[0] == b[0] && f[1] == b[1] && f[2] == b[2] && f[3] == b[3]);
    assert(f.subrange(4, n + 4) =~= payload);
}

/// Each field of an input message reports its own button: `up` is whether
/// Up is held, `down` Down, `left` Left, `right` Right.
pub proof fn law_upload_fields(held: Set<Button>, upload: InputUpload)
    ensures
        InputUpload::of_held(held).up == held.contains(Button::Up),
        InputUpload::of_held(held).down == held.contains(Button::Down),
        InputUpload::of_held(held).left == held.contains(Button::Left),
        InputUpload::of_held(held).right == held.contains(Button::Right),
        upload.held().contains(Button::Up) == upload.up,
        upload.held().contains(Button::Down) == upload.down,
        upload.held().contains(Button::Left) == upload.left,
        upload.held().contains(Button::Right) == upload.right,
{
}

} // verus!
