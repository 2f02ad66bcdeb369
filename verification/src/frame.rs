//! Text frames of the wire protocol: `GET*<key>*` reads a key and
//! `SET*<key>*<value>*` writes one. The parser consumes a frame from the
//! front of a connection's buffer once the frame is complete.
use vstd::prelude::*;

verus! {

/// The bytes the protocol's tokens are made of: `G`, `E`, `T`, `S`, `*`.
pub const BYTE_G: u8 = 71;

pub const BYTE_E: u8 = 69;

pub const BYTE_T: u8 = 84;

pub const BYTE_S: u8 = 83;

/// The separator between the tokens of a frame.
pub const BYTE_STAR: u8 = 42;

/// What a frame asks the store to do.
#[derive(PartialEq, Eq, Structural, Clone, Copy, Debug)]
pub enum FrameOp {
    /// A `GET` frame: read the value stored at the key.
    Read,
    /// A `SET` frame: write the value at the key.
    Write,
}

/// A parsed wire frame: one store command in text form. A read frame
/// carries an empty value.
pub struct Frame {
    pub op: FrameOp,
    pub key: Vec<u8>,
    pub value: Vec<u8>,
}

/// The error a malformed buffer produces: its start can never become a
/// frame, however many bytes follow.
#[derive(PartialEq, Eq, Structural, Clone, Copy, Debug)]
pub enum FrameError {
    Malformed,
}

/// How a buffer parses: not yet enough bytes, never a frame, or one
/// complete frame and the count of bytes it occupied.
pub enum FrameParseV {
    Incomplete,
    Malformed,
    Read { key: Seq<u8>, used: int },
    Write { key: Seq<u8>, value: Seq<u8>, used: int },
}

/// True when the buffer starts with the three bytes of an operation name.
pub open spec fn starts_with_op(b: Seq<u8>, c0: u8, c1: u8, c2: u8) -> bool {
    b.len() >= 3 && b[0] == c0 && b[1] == c1 && b[2] == c2
}

/// True when the buffer starts with `GET`.
pub open spec fn is_read_start(b: Seq<u8>) -> bool {
    starts_with_op(b, BYTE_G, BYTE_E, BYTE_T)
}

/// True when the buffer starts with `SET`.
pub open spec fn is_write_start(b: Seq<u8>) -> bool {
    starts_with_op(b, BYTE_S, BYTE_E, BYTE_T)
}

/// The first position at or after `from` holding `x`, or `b.len()` when
/// there is none.
pub open spec fn find_byte(b: Seq<u8>, x: u8, from: int) -> int
    decreases b.len() - from,
{
    if !(0 <= from < b.len()) {
        b.len() as int
    } else if b[from] == x {
        from
    } else {
        find_byte(b, x, from + 1)
    }
}

/// What the buffer parses to.
pub open spec fn parse_frame_spec(b: Seq<u8>) -> FrameParseV {
    if b.len() < 4 {
        if b.len() >= 3 && !is_read_start(b) && !is_write_start(b) {
            FrameParseV::Malformed
        } else {
            FrameParseV::Incomplete
        }
    } else if !is_read_start(b) && !is_write_start(b) {
        FrameParseV::Malformed
    } else if b[3] != BYTE_STAR {
        FrameParseV::Malformed
    } else {
        let j = find_byte(b, BYTE_STAR, 4);
        if j == b.len() {
            FrameParseV::Incomplete
        } else if is_read_start(b) {
            FrameParseV::Read { key: b.subrange(4, j), used: j + 1 }
        } else {
            let k = find_byte(b, BYTE_STAR, j + 1);
            if k == b.len() {
                FrameParseV::Incomplete
            } else {
                FrameParseV::Write {
                    key: b.subrange(4, j),
                    value: b.subrange(j + 1, k),
                    used: k + 1,
                }
            }
        }
    }
}

proof fn lemma_find_byte_at(b: Seq<u8>, x: u8, from: int, i: int)
    requires
        0 <= from <= i < b.len(),
        b[i] == x,
        forall|j: int| from <= j < i ==> b[j] != x,
    ensures
        find_byte(b, x, from) == i,
    decreases i - from,
{
    if from < i {
        lemma_find_byte_at(b, x, from + 1, i);
    }
}

proof fn lemma_find_byte_absent(b: Seq<u8>, x: u8, from: int)
    requires
        0 <= from <= b.len(),
        forall|j: int| from <= j < b.len() ==> b[j] != x,
    ensures
        find_byte(b, x, from) == b.len(),
    decreases b.len() - from,
{
    if from < b.len() {
        lemma_find_byte_absent(b, x, from + 1);
    }
}

/// The first `*` at or after `from`, or the buffer's length.
fn find_star(buf: &Vec<u8>, from: usize) -> (r: usize)
    requires
        from <= buf@.len(),
    ensures
        r == find_byte(buf@, BYTE_STAR, from as int),
        from <= r <= buf@.len(),
        r < buf@.len() ==> buf@[r as int] == BYTE_STAR,
{
    let mut i: usize = from;
    while i < buf.len()
        invariant
            from <= i <= buf@.len(),
            forall|j: int| from <= j < i ==> buf@[j] != BYTE_STAR,
        decreases buf@.len() - i,
    {
        if buf[i] == BYTE_STAR {
            proof {
                lemma_find_byte_at(buf@, BYTE_STAR, from as int, i as int);
            }
            return i;
        }
        i += 1;
    }
    proof {
        lemma_find_byte_absent(buf@, BYTE_STAR, from as int);
    }
    buf.len()
}

/// The bytes of `buf` from `a` up to `b`, as a fresh vector.
fn copy_range(buf: &Vec<u8>, a: usize, b: usize) -> (r: Vec<u8>)
    requires
        a <= b <= buf@.len(),
    ensures
        r@ == buf@.subrange(a as int, b as int),
{
    let mut out: Vec<u8> = Vec::new();
    let mut i: usize = a;
    while i < b
        invariant
            a <= i <= b <= buf@.len(),
            out@.len() == i - a,
            forall|j: int| 0 <= j < out@.len() ==> out@[j] == buf@[a + j],
        decreases b - i,
    {
        out.push(buf[i]);
        i += 1;
    }
    proof {
        assert(out@ =~= buf@.subrange(a as int, b as int));
    }
    out
}

/// Attempts to parse one frame from the front of the buffer. Returns the
/// frame and the count of bytes it occupied, `None` when more bytes are
/// needed, and an error when the buffer's start can never become a frame.
pub fn parse_frame(buf: &Vec<u8>) -> (r: Result<Option<(Frame, usize)>, FrameError>)
    ensures
        match r {
            Result::Err(e) => e == FrameError::Malformed && parse_frame_spec(buf@)
                is Malformed,
            Result::Ok(Option::None) => parse_frame_spec(buf@) is Incomplete,
            Result::Ok(Option::Some((f, used))) => match parse_frame_spec(buf@) {
                FrameParseV::Read { key, used: u } => {
                    &&& f.op == FrameOp::Read
                    &&& f.key@ == key
                    &&& f.value@ == Seq::<u8>::empty()
                    &&& used as int == u
                },
                FrameParseV::Write { key, value, used: u } => {
                    &&& f.op == FrameOp::Write
                    &&& f.key@ == key
                    &&& f.value@ == value
                    &&& used as int == u
                },
                _ => false,
            },
        },
{
    if buf.len() < 3 {
        return Ok(None);
    }
    let is_read = buf[0] == BYTE_G && buf[1] == BYTE_E && buf[2] == BYTE_T;
    let is_write = buf[0] == BYTE_S && buf[1] == BYTE_E && buf[2] == BYTE_T;
    if !is_read && !is_write {
        return Err(FrameError::Malformed);
    }
    if buf.len() < 4 {
        return Ok(None);
    }
    if buf[3] != BYTE_STAR {
        return Err(FrameError::Malformed);
    }
    let j = find_star(buf, 4);
    if j == buf.len() {
        return Ok(None);
    }
    if is_read {
        let key = copy_range(buf, 4, j);
        let value: Vec<u8> = Vec::new();
        proof {
            assert(value@ =~= Seq::<u8>::empty());
        }
        return Ok(Some((Frame { op: FrameOp::Read, key, value }, j + 1)));
    }
    let k = find_star(buf, j + 1);
    if k == buf.len() {
        return Ok(None);
    }
    let key = copy_range(buf, 4, j);
    let value = copy_range(buf, j + 1, k);
    Ok(Some((Frame { op: FrameOp::Write, key, value }, k + 1)))
}

} // verus!
