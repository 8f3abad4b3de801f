//! Length-prefixed framing codec used on every byte stream.
//!
//! A frame is `[header][payload]`. The low two bits of the first header byte
//! give the header width minus one (1 to 4 bytes); the payload length is the
//! little-endian integer formed by the whole header, shifted right by two to
//! drop those marker bits. Encoding picks the smallest header that fits, so
//! payloads up to 0x3F use one byte, up to 0x3FFF two, up to 0x3FFFFF three
//! and up to 0x3FFFFFFF four; anything longer is an encode-time overflow.
//!
//! Decoding is resumable: the codec remembers whether it is waiting for a
//! header or for a known number of payload bytes, and returns `None` when the
//! buffer does not yet hold enough, without consuming anything it cannot use.

use vstd::prelude::*;

verus! {

/// Maximum payload length expressible by the widest (4-byte) header.
pub const MAX_FRAME_PAYLOAD: usize = 0x3fff_ffff;

#[derive(Debug, Clone, Copy, PartialEq, Eq, Structural)]
pub enum CodecError {
    /// A decoded length exceeded the configured maximum packet length.
    TooBigPacket,
    /// An encoded payload exceeded the capacity of the widest header.
    Overflow,
}

#[derive(Debug, Clone, Copy)]
enum DecodeState {
    Head,
    Data(usize),
}

/// The framing codec: decode state, sticky raw mode, and the maximum
/// accepted payload length.
#[derive(Debug, Clone, Copy)]
pub struct BytesCodec {
    state: DecodeState,
    raw: bool,
    max_packet_length: usize,
}

/// 256 to the power `k`; the number of values a `k`-byte header can hold.
pub open spec fn pow256(k: nat) -> nat
    decreases k,
{
    if k == 0 {
        1
    } else {
        256 * pow256((k - 1) as nat)
    }
}

/// Powers of 256 are positive.
pub proof fn lemma_pow256_pos(k: nat)
    ensures
        pow256(k) > 0,
    decreases k,
{
    if k > 0 {
        lemma_pow256_pos((k - 1) as nat);
    }
}

/// The unsigned integer a byte sequence denotes in little-endian order.
pub open spec fn le_value(s: Seq<u8>) -> nat
    decreases s.len(),
{
    if s.len() == 0 {
        0
    } else {
        s[0] as nat + 256 * le_value(s.skip(1))
    }
}

/// The `k` little-endian bytes of `v`.
pub open spec fn le_bytes(v: nat, k: nat) -> Seq<u8>
    decreases k,
{
    if k == 0 {
        Seq::empty()
    } else {
        seq![(v % 256) as u8] + le_bytes(v / 256, (k - 1) as nat)
    }
}

/// The two marker bits of the header for a payload of length `n`: the header
/// occupies `head_code(n) + 1` bytes.
pub open spec fn head_code(n: nat) -> nat {
    if n <= 0x3f {
        0
    } else if n <= 0x3fff {
        1
    } else if n <= 0x3f_ff_ff {
        2
    } else {
        3
    }
}

/// Header width announced by the first header byte.
pub open spec fn head_len_of(b0: u8) -> nat {
    (b0 % 4) as nat + 1
}

/// The header bytes for a payload of length `n`.
pub open spec fn spec_header(n: nat) -> Seq<u8> {
    le_bytes(4 * n + head_code(n), head_code(n) + 1)
}

/// The full encoding of a payload: minimal header, then the payload itself.
pub open spec fn spec_encode(p: Seq<u8>) -> Seq<u8> {
    spec_header(p.len()) + p
}

/// One decoding step on a non-raw codec: from the awaiting state (`None`
/// while waiting for a header, `Some(n)` while waiting for `n` payload bytes)
/// and the buffered bytes, to the new state, the remaining buffer, and the
/// outcome.
pub open spec fn spec_decode_step(st: Option<nat>, max: nat, buf: Seq<u8>) -> (Option<nat>, Seq<
    u8,
>, Result<Option<Seq<u8>>, CodecError>) {
    match st {
        Some(n) => {
            if buf.len() >= n {
                (None, buf.skip(n as int), Ok(Some(buf.take(n as int))))
            } else {
                (Some(n), buf, Ok(None))
            }
        },
        None => {
            if buf.len() == 0 {
                (None, buf, Ok(None))
            } else {
                let hl = head_len_of(buf[0]);
                if buf.len() < hl {
                    (None, buf, Ok(None))
                } else {
                    let n = le_value(buf.take(hl as int)) / 4;
                    if n > max {
                        (None, buf, Err(CodecError::TooBigPacket))
                    } else if buf.len() >= hl + n {
                        (
                            None,
                            buf.skip((hl + n) as int),
                            Ok(Some(buf.subrange(hl as int, (hl + n) as int))),
                        )
                    } else {
                        (Some(n), buf.skip(hl as int), Ok(None))
                    }
                }
            }
        },
    }
}

/// The view of a decode result, for stating contracts.
pub open spec fn decode_result_view(r: Result<Option<Vec<u8>>, CodecError>) -> Result<
    Option<Seq<u8>>,
    CodecError,
> {
    match r {
        Ok(None) => Ok(None),
        Ok(Some(v)) => Ok(Some(v@)),
        Err(e) => Err(e),
    }
}

/// Removes the first `n` bytes of `src` and returns them.
fn split_front(src: &mut Vec<u8>, n: usize) -> (front: Vec<u8>)
    requires
        n <= old(src)@.len(),
    ensures
        front@ == old(src)@.take(n as int),
        final(src)@ == old(src)@.skip(n as int),
{
    let mut front: Vec<u8> = Vec::new();
    let mut i: usize = 0;
    while i < n
        invariant
            i <= n <= src@.len(),
            src@ == old(src)@,
            front@ == src@.take(i as int),
        decreases n - i,
    {
        front.push(src[i]);
        i += 1;
    }
    let mut rest: Vec<u8> = Vec::new();
    let mut j: usize = n;
    while j < src.len()
        invariant
            n <= j <= src@.len(),
            src@ == old(src)@,
            rest@ == src@.subrange(n as int, j as int),
        decreases src@.len() - j,
    {
        rest.push(src[j]);
        j += 1;
    }
    assert(rest@ =~= old(src)@.skip(n as int));
    *src = rest;
    front
}

impl BytesCodec {
    /// `None` while a header is awaited; `Some(n)` while `n` payload bytes are.
    pub closed spec fn awaiting(self) -> Option<nat> {
        match self.state {
            DecodeState::Head => None,
            DecodeState::Data(n) => Some(n as nat),
        }
    }

    /// Whether the codec is in raw (unframed) mode.
    pub closed spec fn is_raw(self) -> bool {
        self.raw
    }

    /// The maximum accepted decoded payload length.
    pub closed spec fn max_len(self) -> nat {
        self.max_packet_length as nat
    }

    pub fn new() -> (r: Self)
        ensures
            r.awaiting() is None,
            !r.is_raw(),
            r.max_len() == usize::MAX as nat,
    {
        BytesCodec { state: DecodeState::Head, raw: false, max_packet_length: usize::MAX }
    }

    /// Switches to raw mode: the whole buffered input is one payload. Sticky
    /// for the codec's lifetime.
    pub fn set_raw(&mut self)
        ensures
            final(self).is_raw(),
            final(self).awaiting() == old(self).awaiting(),
            final(self).max_len() == old(self).max_len(),
    {
        self.raw = true;
    }

    pub fn set_max_packet_length(&mut self, max_packet_length: usize)
        ensures
            final(self).max_len() == max_packet_length as nat,
            final(self).awaiting() == old(self).awaiting(),
            final(self).is_raw() == old(self).is_raw(),
    {
        self.max_packet_length = max_packet_length;
    }

    /// Reads a complete header from the front of `src`: returns the payload
    /// length it announces and consumes the header, `None` when more bytes
    /// are needed, or an error when the length exceeds the maximum.
    fn decode_head(&mut self, src: &mut Vec<u8>) -> (r: Result<Option<usize>, CodecError>)
        ensures
            *final(self) == *old(self),
            ({
                let buf = old(src)@;
                if buf.len() == 0 {
                    r == Ok::<Option<usize>, CodecError>(None) && final(src)@ == buf
                } else {
                    let hl = head_len_of(buf[0]);
                    if buf.len() < hl {
                        r == Ok::<Option<usize>, CodecError>(None) && final(src)@ == buf
                    } else {
                        let n = le_value(buf.take(hl as int)) / 4;
                        if n > old(self).max_len() {
                            r == Err::<Option<usize>, CodecError>(CodecError::TooBigPacket)
                                && final(src)@ == buf
                        } else {
                            r matches Ok(Some(m)) && m as nat == n && final(src)@ == buf.skip(hl as int)
                        }
                    }
                }
            }),
    {
        if src.len() == 0 {
            return Ok(None);
        }
        let b0 = src[0];
        let head_len: usize = ((b0 % 4) as usize) + 1;
        if src.len() < head_len {
            return Ok(None);
        }
        let mut n: usize = src[0] as usize;
        if head_len > 1 {
            n = n + (src[1] as usize) * 256;
        }
        if head_len > 2 {
            n = n + (src[2] as usize) * 65536;
        }
        if head_len > 3 {
            n = n + (src[3] as usize) * 16777216;
        }
        proof {
            lemma_le_value_prefix(src@, head_len as nat);
        }
        n = n / 4;
        if n > self.max_packet_length {
            return Err(CodecError::TooBigPacket);
        }
        let _ = split_front(src, head_len);
        Ok(Some(n))
    }

    /// Returns the first `n` buffered bytes as a payload, or `None` when
    /// fewer than `n` are buffered.
    fn decode_data(&self, n: usize, src: &mut Vec<u8>) -> (r: Option<Vec<u8>>)
        ensures
            old(src)@.len() >= n ==> (r matches Some(d) && d@ == old(src)@.take(n as int)
                && final(src)@ == old(src)@.skip(n as int)),
            old(src)@.len() < n ==> r is None && final(src)@ == old(src)@,
    {
        if src.len() < n {
            return None;
        }
        Some(split_front(src, n))
    }

    /// One decoding step, as `spec_decode_step` describes: consumes a
    /// complete frame from the front of `src` and returns its payload,
    /// returns `None` when more bytes are needed (remembering a parsed
    /// header), and fails without consuming anything when the announced
    /// length exceeds the maximum. In raw mode the whole buffer is the
    /// payload.
    pub fn decode(&mut self, src: &mut Vec<u8>) -> (r: Result<Option<Vec<u8>>, CodecError>)
        ensures
            final(self).is_raw() == old(self).is_raw(),
            final(self).max_len() == old(self).max_len(),
            old(self).is_raw() ==> final(self).awaiting() == old(self).awaiting() && (if old(src)@.len() == 0 {
                r == Ok::<Option<Vec<u8>>, CodecError>(None) && final(src)@ == old(src)@
            } else {
                decode_result_view(r) == Ok::<Option<Seq<u8>>, CodecError>(Some(old(src)@))
                    && final(src)@ =~= Seq::<u8>::empty()
            }),
            !old(self).is_raw() ==> ({
                let (st2, buf2, res) = spec_decode_step(
                    old(self).awaiting(),
                    old(self).max_len(),
                    old(src)@,
                );
                final(self).awaiting() == st2 && final(src)@ == buf2 && decode_result_view(r)
                    == res
            }),
    {
        if self.raw {
            if src.len() > 0 {
                let len = src.len();
                let data = split_front(src, len);
                proof {
                    assert(data@ =~= old(src)@);
                }
                return Ok(Some(data));
            } else {
                return Ok(None);
            }
        }
        let n: usize;
        match self.state {
            DecodeState::Head => {
                match self.decode_head(src) {
                    Err(e) => {
                        return Err(e);
                    },
                    Ok(None) => {
                        return Ok(None);
                    },
                    Ok(Some(m)) => {
                        self.state = DecodeState::Data(m);
                        n = m;
                    },
                }
            },
            DecodeState::Data(m) => {
                n = m;
            },
        }
        let ghost mid = src@;
        match self.decode_data(n, src) {
            Some(data) => {
                self.state = DecodeState::Head;
                proof {
                    if old(self).awaiting() is None {
                        let buf = old(src)@;
                        let hl = head_len_of(buf[0]);
                        assert(mid == buf.skip(hl as int));
                        assert(mid.take(n as int) =~= buf.subrange(hl as int, (hl + n) as int));
                        assert(mid.skip(n as int) =~= buf.skip((hl + n) as int));
                    }
                }
                Ok(Some(data))
            },
            None => Ok(None),
        }
    }

    /// Appends the encoding of `data` (minimal header, then the payload) to
    /// `buf`; fails with `Overflow`, appending nothing, when the payload is
    /// longer than the widest header can announce. In raw mode the payload
    /// is appended without a header.
    pub fn encode(&mut self, data: &Vec<u8>, buf: &mut Vec<u8>) -> (r: Result<(), CodecError>)
        ensures
            *final(self) == *old(self),
            old(self).is_raw() ==> r == Ok::<(), CodecError>(()) && final(buf)@ == old(buf)@
                + data@,
            !old(self).is_raw() ==> (if data@.len() <= MAX_FRAME_PAYLOAD {
                r == Ok::<(), CodecError>(()) && final(buf)@ == old(buf)@ + spec_encode(data@)
            } else {
                r == Err::<(), CodecError>(CodecError::Overflow) && final(buf)@ == old(buf)@
            }),
    {
        if self.raw {
            append_all(buf, data);
            return Ok(());
        }
        let n = data.len();
        if n <= 0x3f {
            let v: u8 = (n as u8) * 4;
            buf.push(v);
            proof {
                lemma_header_bytes(n as nat);
                assert(buf@ =~= old(buf)@ + spec_header(n as nat));
            }
        } else if n <= 0x3fff {
            let v: usize = n * 4 + 1;
            buf.push((v % 256) as u8);
            buf.push((v / 256) as u8);
            proof {
                lemma_header_bytes(n as nat);
                assert(buf@ =~= old(buf)@ + spec_header(n as nat));
            }
        } else if n <= 0x3f_ff_ff {
            let v: usize = n * 4 + 2;
            buf.push((v % 256) as u8);
            buf.push(((v / 256) % 256) as u8);
            buf.push((v / 65536) as u8);
            proof {
                lemma_header_bytes(n as nat);
                assert(buf@ =~= old(buf)@ + spec_header(n as nat));
            }
        } else if n <= 0x3f_ff_ff_ff {
            let v: usize = n * 4 + 3;
            buf.push((v % 256) as u8);
            buf.push(((v / 256) % 256) as u8);
            buf.push(((v / 65536) % 256) as u8);
            buf.push((v / 16777216) as u8);
            proof {
                lemma_header_bytes(n as nat);
                assert(buf@ =~= old(buf)@ + spec_header(n as nat));
            }
        } else {
            return Err(CodecError::Overflow);
        }
        let ghost with_header = buf@;
        append_all(buf, data);
        proof {
            assert(buf@ =~= old(buf)@ + spec_encode(data@));
        }
        Ok(())
    }
}

/// Appends all of `data` to `buf`.
fn append_all(buf: &mut Vec<u8>, data: &Vec<u8>)
    ensures
        final(buf)@ == old(buf)@ + data@,
{
    let mut i: usize = 0;
    while i < data.len()
        invariant
            i <= data@.len(),
            buf@ == old(buf)@ + data@.take(i as int),
        decreases data@.len() - i,
    {
        buf.push(data[i]);
        i += 1;
        assert(buf@ =~= old(buf)@ + data@.take(i as int));
    }
    assert(buf@ =~= old(buf)@ + data@);
}

/// The little-endian value of the first `hl` bytes, written out digit by
/// digit, for headers of one to four bytes.
proof fn lemma_le_value_prefix(s: Seq<u8>, hl: nat)
    requires
        1 <= hl <= 4,
        s.len() >= hl,
    ensures
        le_value(s.take(hl as int)) == s[0] as nat + (if hl > 1 {
            256 * s[1] as nat
        } else {
            0
        }) + (if hl > 2 {
            65536 * s[2] as nat
        } else {
            0
        }) + (if hl > 3 {
            16777216 * s[3] as nat
        } else {
            0
        }),
        le_value(s.take(hl as int)) < pow256(hl),
{
    let t = s.take(hl as int);
    lemma_le_value_small(t);
}

/// Unfolds `le_value` on sequences of at most four bytes.
proof fn lemma_le_value_small(t: Seq<u8>)
    requires
        t.len() <= 4,
    ensures
        le_value(t) == (if t.len() > 0 {
            t[0] as nat
        } else {
            0
        }) + (if t.len() > 1 {
            256 * t[1] as nat
        } else {
            0
        }) + (if t.len() > 2 {
            65536 * t[2] as nat
        } else {
            0
        }) + (if t.len() > 3 {
            16777216 * t[3] as nat
        } else {
            0
        }),
        le_value(t) < pow256(t.len()),
    decreases t.len(),
{
    if t.len() == 0 {
    } else {
        let rest = t.skip(1);
        lemma_le_value_small(rest);
        assert(rest.len() == t.len() - 1);
        assert(t[0] as nat + 256 * le_value(rest) < pow256(t.len())) by {
            assert(le_value(rest) <= pow256(rest.len()) - 1);
            assert(pow256(t.len()) == 256 * pow256(rest.len()));
        }
    }
}

/// The header for a payload of length `n` is exactly the bytes the encoder
/// writes, and its first byte announces its own width.
proof fn lemma_header_bytes(n: nat)
    requires
        n <= 0x3fff_ffff,
    ensures
        head_code(n) == 0 ==> spec_header(n) =~= seq![(4 * n % 256) as u8],
        head_code(n) == 1 ==> spec_header(n) =~= seq![
            ((4 * n + 1) % 256) as u8,
            ((4 * n + 1) / 256 % 256) as u8,
        ],
        head_code(n) == 2 ==> spec_header(n) =~= seq![
            ((4 * n + 2) % 256) as u8,
            ((4 * n + 2) / 256 % 256) as u8,
            ((4 * n + 2) / 65536 % 256) as u8,
        ],
        head_code(n) == 3 ==> spec_header(n) =~= seq![
            ((4 * n + 3) % 256) as u8,
            ((4 * n + 3) / 256 % 256) as u8,
            ((4 * n + 3) / 65536 % 256) as u8,
            ((4 * n + 3) / 16777216 % 256) as u8,
        ],
{
    reveal_with_fuel(le_bytes, 6);
    let c = head_code(n);
    let v = 4 * n + c;
    let h = spec_header(n);
    assert(h == le_bytes(v, c + 1));
    if c == 0 {
        assert(le_bytes(v, 1) =~= seq![(v % 256) as u8]);
    } else if c == 1 {
        assert(le_bytes(v, 2) =~= seq![(v % 256) as u8] + le_bytes(v / 256, 1));
        assert(le_bytes(v / 256, 1) =~= seq![(v / 256 % 256) as u8]);
        assert(le_bytes(v, 2) =~= seq![(v % 256) as u8, (v / 256 % 256) as u8]);
    } else if c == 2 {
        assert(le_bytes(v, 3) =~= seq![(v % 256) as u8] + le_bytes(v / 256, 2));
        assert(le_bytes(v / 256, 2) =~= seq![(v / 256 % 256) as u8] + le_bytes(v / 256 / 256, 1));
        assert(v / 256 / 256 == v / 65536) by {
            vstd::arithmetic::div_mod::lemma_div_denominator(v as int, 256, 256);
        }
        assert(le_bytes(v, 3) =~= seq![
            (v % 256) as u8,
            (v / 256 % 256) as u8,
            (v / 65536 % 256) as u8,
        ]);
    } else {
        assert(le_bytes(v, 4) =~= seq![(v % 256) as u8] + le_bytes(v / 256, 3));
        assert(le_bytes(v / 256, 3) =~= seq![(v / 256 % 256) as u8] + le_bytes(v / 256 / 256, 2));
        assert(le_bytes(v / 256 / 256, 2) =~= seq![(v / 256 / 256 % 256) as u8] + le_bytes(
            v / 256 / 256 / 256,
            1,
        ));
        assert(v / 256 / 256 == v / 65536) by {
            vstd::arithmetic::div_mod::lemma_div_denominator(v as int, 256, 256);
        }
        assert(v / 65536 / 256 == v / 16777216) by {
            vstd::arithmetic::div_mod::lemma_div_denominator(v as int, 65536, 256);
        }
        assert(le_bytes(v, 4) =~= seq![
            (v % 256) as u8,
            (v / 256 % 256) as u8,
            (v / 65536 % 256) as u8,
            (v / 16777216 % 256) as u8,
        ]);
    }
}

/// Facts about a well-formed header: its width, the width its first byte
/// announces, and the length it denotes.
proof fn lemma_header_decodes(n: nat)
    requires
        n <= 0x3fff_ffff,
    ensures
        spec_header(n).len() == head_code(n) + 1,
        head_len_of(spec_header(n)[0]) == head_code(n) + 1,
        le_value(spec_header(n)) == 4 * n + head_code(n),
        le_value(spec_header(n)) / 4 == n,
{
    reveal_with_fuel(pow256, 6);
    let c = head_code(n);
    let v = 4 * n + c;
    lemma_le_bytes_len(v, c + 1);
    assert(v < pow256(c + 1)) by {
        assert(pow256(1) == 256);
        assert(pow256(2) == 65536);
        assert(pow256(3) == 16777216);
        assert(pow256(4) == 4294967296);
    }
    lemma_le_value_of_le_bytes(v, c + 1);
    // The first header byte is v % 256, and its low two bits are c.
    assert(le_bytes(v, c + 1)[0] == (v % 256) as u8);
    assert(v % 256 % 4 == v % 4) by {
        vstd::arithmetic::div_mod::lemma_mod_mod(v as int, 4, 64);
    }
    assert(v % 4 == c) by {
        vstd::arithmetic::div_mod::lemma_fundamental_div_mod_converse(v as int, 4, n as int, c as int);
    }
    assert(v / 4 == n) by {
        vstd::arithmetic::div_mod::lemma_fundamental_div_mod_converse(v as int, 4, n as int, c as int);
    }
}

/// `le_bytes` produces exactly `k` bytes.
proof fn lemma_le_bytes_len(v: nat, k: nat)
    ensures
        le_bytes(v, k).len() == k,
    decreases k,
{
    if k > 0 {
        lemma_le_bytes_len(v / 256, (k - 1) as nat);
    }
}

/// Writing a value below 256^k as `k` little-endian bytes and reading it
/// back is the identity.
proof fn lemma_le_value_of_le_bytes(v: nat, k: nat)
    requires
        v < pow256(k),
    ensures
        le_value(le_bytes(v, k)) == v,
    decreases k,
{
    if k == 0 {
    } else {
        let b = le_bytes(v, k);
        assert(b == seq![(v % 256) as u8] + le_bytes(v / 256, (k - 1) as nat));
        assert(b.skip(1) =~= le_bytes(v / 256, (k - 1) as nat));
        assert(v / 256 < pow256((k - 1) as nat)) by {
            assert(pow256(k) == 256 * pow256((k - 1) as nat));
            vstd::arithmetic::div_mod::lemma_multiply_divide_lt(
                v as int,
                256,
                pow256((k - 1) as nat) as int,
            );
        }
        lemma_le_value_of_le_bytes(v / 256, (k - 1) as nat);
        vstd::arithmetic::div_mod::lemma_fundamental_div_mod(v as int, 256);
    }
}

/// Round trip: decoding the encoding of any payload the codec can frame,
/// with a fresh decoder whose maximum admits the payload, yields exactly
/// that payload and leaves nothing buffered.
pub proof fn lemma_encode_decode_round_trip(p: Seq<u8>, max: nat)
    requires
        p.len() <= MAX_FRAME_PAYLOAD,
        p.len() <= max,
    ensures
        spec_decode_step(None, max, spec_encode(p)) == (
            None::<nat>,
            Seq::<u8>::empty(),
            Ok::<Option<Seq<u8>>, CodecError>(Some(p)),
        ),
{
    lemma_header_decodes(p.len());
    let h = spec_header(p.len());
    let buf = spec_encode(p);
    let hl = h.len();
    assert(buf[0] == h[0]);
    assert(head_len_of(buf[0]) == hl);
    assert(buf.take(hl as int) =~= h);
    assert(le_value(buf.take(hl as int)) / 4 == p.len());
    assert(buf.subrange(hl as int, (hl + p.len()) as int) =~= p);
    assert(buf.skip((hl + p.len()) as int) =~= Seq::<u8>::empty());
}

/// Partial delivery: no strict prefix of an encoded frame ever yields a
/// payload; the decoder always answers "need more bytes".
pub proof fn lemma_partial_input_yields_no_frame(p: Seq<u8>, max: nat, i: int)
    requires
        p.len() <= MAX_FRAME_PAYLOAD,
        p.len() <= max,
        0 <= i < spec_encode(p).len(),
    ensures
        spec_decode_step(None, max, spec_encode(p).take(i)).2 == Ok::<Option<Seq<u8>>, CodecError>(
            None,
        ),
{
    lemma_header_decodes(p.len());
    let h = spec_header(p.len());
    let buf = spec_encode(p);
    let hl = h.len() as int;
    let pre = buf.take(i);
    if i == 0 {
    } else {
        assert(pre[0] == h[0]);
        if i < hl {
        } else {
            assert(pre.take(hl) =~= buf.take(hl));
            assert(buf.take(hl) =~= h);
            assert(le_value(pre.take(hl)) / 4 == p.len());
            assert(pre.len() < hl + p.len());
        }
    }
}

/// Resumption: however an encoded frame is cut in two, feeding the rest
/// after the cut continues from the remembered state and yields exactly the
/// original payload, with nothing left over.
pub proof fn lemma_partial_input_resumes(p: Seq<u8>, max: nat, i: int)
    requires
        p.len() <= MAX_FRAME_PAYLOAD,
        p.len() <= max,
        0 <= i < spec_encode(p).len(),
    ensures
        ({
            let (st1, buf1, _) = spec_decode_step(None, max, spec_encode(p).take(i));
            spec_decode_step(st1, max, buf1 + spec_encode(p).skip(i)) == (
                None::<nat>,
                Seq::<u8>::empty(),
                Ok::<Option<Seq<u8>>, CodecError>(Some(p)),
            )
        }),
{
    lemma_header_decodes(p.len());
    let h = spec_header(p.len());
    let buf = spec_encode(p);
    let hl = h.len() as int;
    let pre = buf.take(i);
    let (st1, buf1, _) = spec_decode_step(None, max, pre);
    if i == 0 || i < hl {
        assert(st1 is None);
        assert(buf1 == pre);
        assert(buf1 + buf.skip(i) =~= buf);
        lemma_encode_decode_round_trip(p, max);
    } else {
        assert(pre[0] == h[0]);
        assert(pre.take(hl) =~= buf.take(hl));
        assert(buf.take(hl) =~= h);
        assert(le_value(pre.take(hl)) / 4 == p.len());
        assert(pre.len() < hl + p.len());
        assert(st1 == Some(p.len()));
        assert(buf1 == pre.skip(hl));
        let whole = buf1 + buf.skip(i);
        assert(whole =~= buf.skip(hl));
        assert(whole.len() == p.len());
        assert(whole.take(p.len() as int) =~= p);
        assert(whole.skip(p.len() as int) =~= Seq::<u8>::empty());
    }
}

} // verus!
