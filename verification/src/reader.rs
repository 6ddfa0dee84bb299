//! A cursor over the bytes of a 3DS file that keeps each read within the
//! chunk it belongs to.
//!
//! A read beyond the end of the data is not an error: the missing bytes read
//! as zero, as they do from a buffer that a short file left partly unfilled.

use vstd::prelude::*;
use vstd::utf8::{decode_utf8, valid_utf8};
use crate::header3ds::{Error3ds, Header3ds, HEADER_SIZE};

verus! {

/// What a read of `n` bytes gives: the next bytes of `s`, then zeros.
pub open spec fn taken(s: Seq<u8>, n: nat) -> Seq<u8> {
    Seq::new(n, |i: int| if i < s.len() { s[i] } else { 0u8 })
}

/// What is left of `s` after a read of `n` bytes.
pub open spec fn rest(s: Seq<u8>, n: nat) -> Seq<u8> {
    if n < s.len() {
        s.subrange(n as int, s.len() as int)
    } else {
        Seq::empty()
    }
}

/// The 16-bit number stored at `2 * i`, low byte first.
pub open spec fn le16(b: Seq<u8>, i: int) -> int {
    b[2 * i] + 256 * b[2 * i + 1]
}

/// The 32-bit number stored at `4 * i`, low byte first.
pub open spec fn le32(b: Seq<u8>, i: int) -> int {
    b[4 * i] + 256 * b[4 * i + 1] + 65536 * b[4 * i + 2] + 16777216 * b[4 * i + 3]
}

/// The header stored in six bytes: the identifier, then the size.
pub open spec fn header_of(b: Seq<u8>) -> (int, int) {
    (le16(b, 0), b[2] + 256 * b[3] + 65536 * b[4] + 16777216 * b[5])
}

/// Turns bytes into a string if they are valid UTF-8. Wraps
/// `String::from_utf8`: the result is `Some` exactly for valid UTF-8 and then
/// holds the characters that the bytes encode.
#[verifier::external_body]
fn string_from_utf8(bytes: Vec<u8>) -> (r: Option<String>)
    ensures
        r is Some <==> valid_utf8(bytes@),
        r matches Some(s) ==> s@ == decode_utf8(bytes@),
{
    String::from_utf8(bytes).ok()
}

/// A cursor over the bytes of a file.
pub struct Reader {
    data: Vec<u8>,
    pos: usize,
}

impl Reader {
    #[verifier::type_invariant]
    spec fn well_formed(self) -> bool {
        self.pos <= self.data@.len()
    }

    /// The bytes that have not been read yet.
    pub closed spec fn remaining(&self) -> Seq<u8> {
        self.data@.subrange(self.pos as int, self.data@.len() as int)
    }

    /// A cursor at the start of `data`.
    pub fn new(data: Vec<u8>) -> (reader: Reader)
        ensures
            reader.remaining() == data@,
    {
        let reader = Reader { data, pos: 0 };
        assert(reader.remaining() =~= data@);
        reader
    }

    /// Reads `n` bytes; bytes beyond the end of the data read as zero.
    fn read(&mut self, n: usize) -> (out: Vec<u8>)
        ensures
            out@ == taken(old(self).remaining(), n as nat),
            final(self).remaining() == rest(old(self).remaining(), n as nat),
    {
        proof {
            use_type_invariant(&*self);
        }
        let len: usize = self.data.len();
        let start: usize = self.pos;
        let mut out: Vec<u8> = Vec::new();
        let mut i: usize = 0;
        while i < n
            invariant
                i <= n,
                start <= len,
                len == self.data@.len(),
                self.data@ == old(self).data@,
                self.pos == start,
                start == old(self).pos,
                out@.len() == i,
                forall|j: int|
                    0 <= j < i ==> #[trigger] out@[j] == taken(old(self).remaining(), n as nat)[j],
            decreases n - i,
        {
            if i < len - start {
                out.push(self.data[start + i]);
            } else {
                out.push(0);
            }
            i += 1;
        }
        if n < len - start {
            self.pos = start + n;
        } else {
            self.pos = len;
        }
        assert(out@ =~= taken(old(self).remaining(), n as nat));
        assert(self.remaining() =~= rest(old(self).remaining(), n as nat));
        out
    }

    /// Reads a 16-bit number, low byte first, from the chunk of `header`.
    /// Fails without reading if the chunk has fewer than two bytes left.
    pub fn get_u16(&mut self, header: &mut Header3ds) -> (r: Result<u16, Error3ds>)
        ensures
            old(header).left_bytes >= 2 ==> {
                &&& r matches Ok(v)
                &&& v == le16(taken(old(self).remaining(), 2), 0)
                &&& final(self).remaining() == rest(old(self).remaining(), 2)
                &&& *final(header) == (Header3ds {
                    left_bytes: (old(header).left_bytes - 2) as u32,
                    ..*old(header)
                })
            },
            old(header).left_bytes < 2 ==> {
                &&& r == Err::<u16, Error3ds>(
                    Error3ds::Overrun {
                        id: old(header).id,
                        read_bytes: 2,
                        left_bytes: old(header).left_bytes,
                    },
                )
                &&& final(self).remaining() == old(self).remaining()
                &&& *final(header) == *old(header)
            },
    {
        match header.update_left(2) {
            Ok(()) => {},
            Err(e) => {
                return Err(e);
            },
        }
        let buff = self.read(2);
        let lo: u16 = buff[0] as u16;
        let hi: u16 = buff[1] as u16;
        assert(lo + (hi << 8) == lo + 256 * hi && lo + (hi << 8) <= 0xFFFF) by (bit_vector)
            requires
                lo <= 255,
                hi <= 255,
        ;
        Ok(lo + (hi << 8))
    }

    /// Reads a 32-bit number, low byte first, from the chunk of `header`.
    /// Fails without reading if the chunk has fewer than four bytes left.
    pub fn get_u32(&mut self, header: &mut Header3ds) -> (r: Result<u32, Error3ds>)
        ensures
            old(header).left_bytes >= 4 ==> {
                &&& r matches Ok(v)
                &&& v == le32(taken(old(self).remaining(), 4), 0)
                &&& final(self).remaining() == rest(old(self).remaining(), 4)
                &&& *final(header) == (Header3ds {
                    left_bytes: (old(header).left_bytes - 4) as u32,
                    ..*old(header)
                })
            },
            old(header).left_bytes < 4 ==> {
                &&& r == Err::<u32, Error3ds>(
                    Error3ds::Overrun {
                        id: old(header).id,
                        read_bytes: 4,
                        left_bytes: old(header).left_bytes,
                    },
                )
                &&& final(self).remaining() == old(self).remaining()
                &&& *final(header) == *old(header)
            },
    {
        match header.update_left(4) {
            Ok(()) => {},
            Err(e) => {
                return Err(e);
            },
        }
        let buff = self.read(4);
        Ok(word(buff[0], buff[1], buff[2], buff[3]))
    }

    /// Reads the header of the next chunk. Fails, after reading, if the
    /// header gives the chunk a size that is smaller than the header.
    pub fn get_header(&mut self) -> (r: Result<Header3ds, Error3ds>)
        ensures
            final(self).remaining() == rest(old(self).remaining(), HEADER_SIZE as nat),
            ({
                let (id, size) = header_of(taken(old(self).remaining(), HEADER_SIZE as nat));
                if size < HEADER_SIZE {
                    r == Err::<Header3ds, Error3ds>(
                        Error3ds::HeaderSize { id: id as u16, size: size as u32 },
                    )
                } else {
                    r == Ok::<Header3ds, Error3ds>(
                        Header3ds {
                            id: id as u16,
                            size: size as u32,
                            left_bytes: (size - HEADER_SIZE) as u32,
                        },
                    )
                }
            }),
    {
        let buff = self.read(6);
        let lo: u16 = buff[0] as u16;
        let hi: u16 = buff[1] as u16;
        assert(lo + (hi << 8) == lo + 256 * hi && lo + (hi << 8) <= 0xFFFF) by (bit_vector)
            requires
                lo <= 255,
                hi <= 255,
        ;
        let id: u16 = lo + (hi << 8);
        let size: u32 = word(buff[2], buff[3], buff[4], buff[5]);
        if size < HEADER_SIZE {
            return Err(Error3ds::HeaderSize { id, size });
        }
        Ok(Header3ds { id, size, left_bytes: size - HEADER_SIZE })
    }

    /// Reads `num` 16-bit numbers, each low byte first, from the chunk of
    /// `header`. Fails without reading if the chunk has fewer bytes left.
    pub fn get_u16_vec(&mut self, header: &mut Header3ds, num: usize) -> (r: Result<
        Vec<u16>,
        Error3ds,
    >)
        requires
            2 * num <= u32::MAX,
        ensures
            old(header).left_bytes >= 2 * num ==> {
                &&& r matches Ok(v)
                &&& v@.len() == num
                &&& forall|i: int|
                    0 <= i < num ==> #[trigger] v@[i] == le16(
                        taken(old(self).remaining(), (2 * num) as nat),
                        i,
                    )
                &&& final(self).remaining() == rest(old(self).remaining(), (2 * num) as nat)
                &&& *final(header) == (Header3ds {
                    left_bytes: (old(header).left_bytes - 2 * num) as u32,
                    ..*old(header)
                })
            },
            old(header).left_bytes < 2 * num ==> {
                &&& r == Err::<Vec<u16>, Error3ds>(
                    Error3ds::Overrun {
                        id: old(header).id,
                        read_bytes: (2 * num) as u32,
                        left_bytes: old(header).left_bytes,
                    },
                )
                &&& final(self).remaining() == old(self).remaining()
                &&& *final(header) == *old(header)
            },
    {
        match header.update_left((2 * num) as u32) {
            Ok(()) => {},
            Err(e) => {
                return Err(e);
            },
        }
        let buff = self.read(2 * num);
        let mut out: Vec<u16> = Vec::new();
        let mut i: usize = 0;
        while i < num
            invariant
                i <= num,
                2 * num <= u32::MAX,
                buff@.len() == 2 * num,
                out@.len() == i,
                forall|j: int| 0 <= j < i ==> #[trigger] out@[j] == le16(buff@, j),
            decreases num - i,
        {
            let lo: u16 = buff[2 * i] as u16;
            let hi: u16 = buff[2 * i + 1] as u16;
            assert(lo + (hi << 8) == lo + 256 * hi && lo + (hi << 8) <= 0xFFFF) by (bit_vector)
                requires
                    lo <= 255,
                    hi <= 255,
            ;
            out.push(lo + (hi << 8));
            i += 1;
        }
        Ok(out)
    }

    /// Reads `num` 32-bit floating-point numbers from the chunk of `header`
    /// and gives the bit pattern of each, read low byte first. Fails without
    /// reading if the chunk has fewer bytes left.
    pub fn get_f32_vec(&mut self, header: &mut Header3ds, num: usize) -> (r: Result<
        Vec<u32>,
        Error3ds,
    >)
        requires
            4 * num <= u32::MAX,
        ensures
            old(header).left_bytes >= 4 * num ==> {
                &&& r matches Ok(v)
                &&& v@.len() == num
                &&& forall|i: int|
                    0 <= i < num ==> #[trigger] v@[i] == le32(
                        taken(old(self).remaining(), (4 * num) as nat),
                        i,
                    )
                &&& final(self).remaining() == rest(old(self).remaining(), (4 * num) as nat)
                &&& *final(header) == (Header3ds {
                    left_bytes: (old(header).left_bytes - 4 * num) as u32,
                    ..*old(header)
                })
            },
            old(header).left_bytes < 4 * num ==> {
                &&& r == Err::<Vec<u32>, Error3ds>(
                    Error3ds::Overrun {
                        id: old(header).id,
                        read_bytes: (4 * num) as u32,
                        left_bytes: old(header).left_bytes,
                    },
                )
                &&& final(self).remaining() == old(self).remaining()
                &&& *final(header) == *old(header)
            },
    {
        match header.update_left((4 * num) as u32) {
            Ok(()) => {},
            Err(e) => {
                return Err(e);
            },
        }
        let buff = self.read(4 * num);
        let mut out: Vec<u32> = Vec::new();
        let mut i: usize = 0;
        while i < num
            invariant
                i <= num,
                4 * num <= u32::MAX,
                buff@.len() == 4 * num,
                out@.len() == i,
                forall|j: int| 0 <= j < i ==> #[trigger] out@[j] == le32(buff@, j),
            decreases num - i,
        {
            out.push(word(buff[4 * i], buff[4 * i + 1], buff[4 * i + 2], buff[4 * i + 3]));
            i += 1;
        }
        Ok(out)
    }

    /// Reads a name of `size` bytes, the last of which is its terminator,
    /// from the chunk of `header`. Fails without reading if the chunk has
    /// fewer bytes left, and after reading if the name is not valid UTF-8.
    pub fn read_string(&mut self, header: &mut Header3ds, size: u32) -> (r: Result<
        String,
        Error3ds,
    >)
        requires
            size >= 1,
        ensures
            old(header).left_bytes >= size ==> {
                let name = taken(old(self).remaining(), size as nat).drop_last();
                &&& final(self).remaining() == rest(old(self).remaining(), size as nat)
                &&& *final(header) == (Header3ds {
                    left_bytes: (old(header).left_bytes - size) as u32,
                    ..*old(header)
                })
                &&& valid_utf8(name) ==> (r matches Ok(text) && text@ == decode_utf8(name))
                &&& !valid_utf8(name) ==> r == Err::<String, Error3ds>(Error3ds::BadString)
            },
            old(header).left_bytes < size ==> {
                &&& r == Err::<String, Error3ds>(
                    Error3ds::Overrun {
                        id: old(header).id,
                        read_bytes: size,
                        left_bytes: old(header).left_bytes,
                    },
                )
                &&& final(self).remaining() == old(self).remaining()
                &&& *final(header) == *old(header)
            },
    {
        match header.update_left(size) {
            Ok(()) => {},
            Err(e) => {
                return Err(e);
            },
        }
        let mut buff = self.read(size as usize);
        let _ = buff.pop();
        match string_from_utf8(buff) {
            Some(text) => Ok(text),
            None => Err(Error3ds::BadString),
        }
    }

    /// Passes over a name up to and including its zero terminator and gives
    /// the number of bytes passed. Fails if the chunk of `header` ends before
    /// the terminator was seen; the chunk is then used up.
    pub fn skip_string(&mut self, header: &mut Header3ds) -> (r: Result<u32, Error3ds>)
        ensures
            final(header).id == old(header).id,
            final(header).size == old(header).size,
            r matches Ok(n) ==> {
                &&& 1 <= n <= old(header).left_bytes
                &&& n <= old(self).remaining().len()
                &&& old(self).remaining()[n - 1] == 0
                &&& forall|i: int| 0 <= i < n - 1 ==> old(self).remaining()[i] != 0
                &&& final(header).left_bytes == old(header).left_bytes - n
                &&& final(self).remaining() == rest(old(self).remaining(), n as nat)
            },
            r matches Err(e) ==> {
                &&& e == (Error3ds::Overrun { id: old(header).id, read_bytes: 1, left_bytes: 0 })
                &&& final(header).left_bytes == 0
                &&& forall|i: int|
                    0 <= i < old(header).left_bytes && i < old(self).remaining().len() ==> old(
                        self,
                    ).remaining()[i] != 0
                &&& final(self).remaining() == rest(
                    old(self).remaining(),
                    (old(header).left_bytes + 1) as nat,
                )
            },
    {
        let ghost start = self.remaining();
        let mut last: u8 = 0xFF;
        let mut size: u32 = 0;
        while last != 0
            invariant
                header.id == old(header).id,
                header.size == old(header).size,
                size + header.left_bytes == old(header).left_bytes,
                self.remaining() == rest(start, size as nat),
                start == old(self).remaining(),
                forall|i: int| 0 <= i < size - 1 && i < start.len() ==> start[i] != 0,
                size >= 1 ==> (if size <= start.len() {
                    last == start[size - 1]
                } else {
                    last != 0
                }),
                size == 0 ==> last != 0,
                last != 0 ==> forall|i: int| 0 <= i < size && i < start.len() ==> start[i] != 0,
            decreases header.left_bytes,
        {
            proof {
                use_type_invariant(&*self);
            }
            let available: bool = self.pos < self.data.len();
            let buff = self.read(1);
            proof {
                assert(self.remaining() =~= rest(start, (size + 1) as nat));
            }
            if available {
                last = buff[0];
            }
            match header.update_left(1) {
                Ok(()) => {},
                Err(e) => {
                    return Err(e);
                },
            }
            size += 1;
        }
        Ok(size)
    }

    /// Passes over what is left of the chunk and gives the chunk's size.
    pub fn skip(&mut self, header: &mut Header3ds) -> (r: Result<u32, Error3ds>)
        ensures
            r == Ok::<u32, Error3ds>(old(header).size),
            final(self).remaining() == rest(old(self).remaining(), old(header).left_bytes as nat),
            *final(header) == (Header3ds { left_bytes: 0, ..*old(header) }),
    {
        proof {
            use_type_invariant(&*self);
        }
        let len: usize = self.data.len();
        let n: usize = header.left_bytes as usize;
        if n < len - self.pos {
            self.pos = self.pos + n;
        } else {
            self.pos = len;
        }
        assert(self.remaining() =~= rest(old(self).remaining(), old(header).left_bytes as nat));
        header.left_bytes = 0;
        Ok(header.size)
    }
}

/// The 32-bit number whose bytes are `b0` to `b3`, from the low byte up.
pub fn word(b0: u8, b1: u8, b2: u8, b3: u8) -> (v: u32)
    ensures
        v == b0 + 256 * b1 + 65536 * b2 + 16777216 * b3,
{
    let w0: u32 = b0 as u32;
    let w1: u32 = b1 as u32;
    let w2: u32 = b2 as u32;
    let w3: u32 = b3 as u32;
    assert(w0 + (w1 << 8) + (w2 << 16) + (w3 << 24) == w0 + 256 * w1 + 65536 * w2 + 16777216 * w3
        && w0 + (w1 << 8) <= 0xFFFF && w0 + (w1 << 8) + (w2 << 16) <= 0xFF_FFFF) by (bit_vector)
        requires
            w0 <= 255,
            w1 <= 255,
            w2 <= 255,
            w3 <= 255,
    ;
    w0 + (w1 << 8) + (w2 << 16) + (w3 << 24)
}

} // verus!
