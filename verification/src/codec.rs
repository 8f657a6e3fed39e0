//! Binary payload codec: one `InternalServicePayload` or
//! `InternalServiceResponse` per byte string.
//!
//! Integers are big-endian and fixed width; byte strings and text carry a
//! 64-bit length prefix; an enum is a one-byte tag followed by its fields.
//! `spec_encode_payload` / `spec_encode_response` are the authoritative
//! statement of the format. Decoding is canonical: whenever a decoder
//! succeeds, its input is exactly the encoding of the value it returns, so
//! a frame that decodes re-encodes to the same bytes.

use vstd::prelude::*;

verus! {

/// Big-endian bytes of a `u32`.
pub open spec fn spec_enc_u32(x: u32) -> Seq<u8> {
    seq![(x >> 24) as u8, (x >> 16) as u8, (x >> 8) as u8, x as u8]
}

/// Big-endian bytes of a `u64`: high word then low word.
pub open spec fn spec_enc_u64(x: u64) -> Seq<u8> {
    spec_enc_u32((x >> 32) as u32) + spec_enc_u32(x as u32)
}

/// Big-endian bytes of a `u128`: high word then low word.
pub open spec fn spec_enc_u128(x: u128) -> Seq<u8> {
    spec_enc_u64((x >> 64) as u64) + spec_enc_u64(x as u64)
}

/// A byte string under a 64-bit length prefix.
pub open spec fn spec_enc_bytes(b: Seq<u8>) -> Seq<u8> {
    spec_enc_u64(b.len() as u64) + b
}

/// Text is carried as its UTF-8 bytes under a 64-bit length prefix.
pub open spec fn spec_enc_str(s: Seq<char>) -> Seq<u8> {
    spec_enc_bytes(vstd::utf8::encode_utf8(s))
}

/// The byte at `pos`, as the decoder reads it.
pub open spec fn spec_read_u8(b: Seq<u8>, pos: int) -> Option<(u8, int)> {
    if 0 <= pos && pos + 1 <= b.len() {
        Some((b[pos], pos + 1))
    } else {
        None
    }
}

/// The big-endian `u32` at `pos`, as the decoder reads it.
pub open spec fn spec_read_u32(b: Seq<u8>, pos: int) -> Option<(u32, int)> {
    if 0 <= pos && pos + 4 <= b.len() {
        Some(
            (
                ((b[pos] as u32) << 24) | ((b[pos + 1] as u32) << 16) | ((b[pos + 2] as u32) << 8)
                    | (b[pos + 3] as u32),
                pos + 4,
            ),
        )
    } else {
        None
    }
}

/// The big-endian `u64` at `pos`, as the decoder reads it.
pub open spec fn spec_read_u64(b: Seq<u8>, pos: int) -> Option<(u64, int)> {
    match spec_read_u32(b, pos) {
        Some((hi, p1)) => match spec_read_u32(b, p1) {
            Some((lo, p2)) => Some((((hi as u64) << 32) | (lo as u64), p2)),
            None => None,
        },
        None => None,
    }
}

/// The big-endian `u128` at `pos`, as the decoder reads it.
pub open spec fn spec_read_u128(b: Seq<u8>, pos: int) -> Option<(u128, int)> {
    match spec_read_u64(b, pos) {
        Some((hi, p1)) => match spec_read_u64(b, p1) {
            Some((lo, p2)) => Some((((hi as u128) << 64) | (lo as u128), p2)),
            None => None,
        },
        None => None,
    }
}

/// The length-prefixed byte string at `pos`, as the decoder reads it.
pub open spec fn spec_read_bytes(b: Seq<u8>, pos: int) -> Option<(Seq<u8>, int)> {
    match spec_read_u64(b, pos) {
        Some((len, p1)) => if len as int <= b.len() - p1 {
            Some((b.subrange(p1, p1 + len as int), p1 + len as int))
        } else {
            None
        },
        None => None,
    }
}

/// The length-prefixed UTF-8 text at `pos`, as the decoder reads it.
pub open spec fn spec_read_str(b: Seq<u8>, pos: int) -> Option<(Seq<char>, int)> {
    match spec_read_bytes(b, pos) {
        Some((bs, p)) => if vstd::utf8::valid_utf8(bs) {
            Some((vstd::utf8::decode_utf8(bs), p))
        } else {
            None
        },
        None => None,
    }
}

/// The boolean byte at `pos`; only 0 and 1 decode.
pub open spec fn spec_read_bool(b: Seq<u8>, pos: int) -> Option<(bool, int)> {
    match spec_read_u8(b, pos) {
        Some((t, p)) => if t == 0 {
            Some((false, p))
        } else if t == 1 {
            Some((true, p))
        } else {
            None
        },
        None => None,
    }
}

/// The optional 64-bit value at `pos`, as the decoder reads it.
pub open spec fn spec_read_opt_u64(b: Seq<u8>, pos: int) -> Option<(Option<u64>, int)> {
    match spec_read_u8(b, pos) {
        Some((t, p1)) => if t == 0 {
            Some((None, p1))
        } else if t == 1 {
            match spec_read_u64(b, p1) {
                Some((x, p2)) => Some((Some(x), p2)),
                None => None,
            }
        } else {
            None
        },
        None => None,
    }
}

/// The security settings at `pos`, as the decoder reads them.
pub open spec fn spec_read_settings(b: Seq<u8>, pos: int) -> Option<
    (crate::types::SessionSecuritySettings, int),
> {
    match spec_read_u8(b, pos) {
        Some((security_level, p1)) => match spec_read_u8(b, p1) {
            Some((secrecy_mode, p2)) => match spec_read_u8(b, p2) {
                Some((crypto_params, p3)) => Some(
                    (
                        crate::types::SessionSecuritySettings {
                            security_level,
                            secrecy_mode,
                            crypto_params,
                        },
                        p3,
                    ),
                ),
                None => None,
            },
            None => None,
        },
        None => None,
    }
}

/// The connect mode at `pos`, as the decoder reads it.
pub open spec fn spec_read_connect_mode(b: Seq<u8>, pos: int) -> Option<
    (crate::types::ConnectMode, int),
> {
    match spec_read_u8(b, pos) {
        Some((t, p)) => if t == 0 {
            Some((crate::types::ConnectMode::Standard, p))
        } else if t == 1 {
            Some((crate::types::ConnectMode::Fetch, p))
        } else {
            None
        },
        None => None,
    }
}

/// The UDP mode at `pos`, as the decoder reads it.
pub open spec fn spec_read_udp_mode(b: Seq<u8>, pos: int) -> Option<(crate::types::UdpMode, int)> {
    match spec_read_u8(b, pos) {
        Some((t, p)) => if t == 0 {
            Some((crate::types::UdpMode::Disabled, p))
        } else if t == 1 {
            Some((crate::types::UdpMode::Enabled, p))
        } else {
            None
        },
        None => None,
    }
}

/// Where the transfer type at `pos` ends, if one is there.
pub open spec fn spec_read_transfer_type(b: Seq<u8>, pos: int) -> Option<int> {
    match spec_read_u8(b, pos) {
        Some((t, p1)) => if t == 0 {
            Some(p1)
        } else if t == 1 {
            match spec_read_str(b, p1) {
                Some((virtual_path, p2)) => match spec_read_u8(b, p2) {
                    Some((security_level, p3)) => Some(p3),
                    None => None,
                },
                None => None,
            }
        } else {
            None
        },
        None => None,
    }
}

/// Where the peer identifier at `pos` ends, if one is there.
pub open spec fn spec_read_user(b: Seq<u8>, pos: int) -> Option<int> {
    match spec_read_u8(b, pos) {
        Some((t, p1)) => if t == 0 {
            match spec_read_u64(b, p1) {
                Some((x, p2)) => Some(p2),
                None => None,
            }
        } else if t == 1 {
            match spec_read_str(b, p1) {
                Some((s, p2)) => Some(p2),
                None => None,
            }
        } else {
            None
        },
        None => None,
    }
}

/// Where `n` consecutive peer identifiers at `pos` end, if they are there.
pub open spec fn spec_read_users(b: Seq<u8>, pos: int, n: int) -> Option<int>
    decreases n,
{
    if n <= 0 {
        Some(pos)
    } else {
        match spec_read_user(b, pos) {
            Some(p) => spec_read_users(b, p, n - 1),
            None => None,
        }
    }
}

/// Where the counted identifier list at `pos` ends, if one is there.
pub open spec fn spec_read_user_list(b: Seq<u8>, pos: int) -> Option<int> {
    match spec_read_u64(b, pos) {
        Some((count, p1)) => spec_read_users(b, p1, count as int),
        None => None,
    }
}

/// Where the optional invite list at `pos` ends, if one is there.
pub open spec fn spec_read_opt_user_list(b: Seq<u8>, pos: int) -> Option<int> {
    match spec_read_u8(b, pos) {
        Some((t, p1)) => if t == 0 {
            Some(p1)
        } else if t == 1 {
            spec_read_user_list(b, p1)
        } else {
            None
        },
        None => None,
    }
}

/// The connect command's fields start at `p0` and end the frame.
pub open spec fn spec_connect_parses(b: Seq<u8>, p0: int) -> bool {
    match spec_read_u128(b, p0) {
        Some((_, p1)) => match spec_read_str(b, p1) {
            Some((_, p2)) => match spec_read_bytes(b, p2) {
                Some((_, p3)) => match spec_read_connect_mode(b, p3) {
                    Some((_, p4)) => match spec_read_udp_mode(b, p4) {
                        Some((_, p5)) => match spec_read_opt_u64(b, p5) {
                            Some((_, p6)) => match spec_read_settings(b, p6) {
                                Some((_, p7)) => p7 == b.len(),
                                None => false,
                            },
                            None => false,
                        },
                        None => false,
                    },
                    None => false,
                },
                None => false,
            },
            None => false,
        },
        None => false,
    }
}

/// The register command's fields start at `p0` and end the frame.
pub open spec fn spec_register_parses(b: Seq<u8>, p0: int) -> bool {
    match spec_read_u128(b, p0) {
        Some((_, p1)) => match spec_read_str(b, p1) {
            Some((_, p2)) => match spec_read_str(b, p2) {
                Some((_, p3)) => match spec_read_str(b, p3) {
                    Some((_, p4)) => match spec_read_bytes(b, p4) {
                        Some((_, p5)) => match spec_read_settings(b, p5) {
                            Some((_, p6)) => p6 == b.len(),
                            None => false,
                        },
                        None => false,
                    },
                    None => false,
                },
                None => false,
            },
            None => false,
        },
        None => false,
    }
}

/// The message command's fields start at `p0` and end the frame.
pub open spec fn spec_message_parses(b: Seq<u8>, p0: int) -> bool {
    match spec_read_u128(b, p0) {
        Some((_, p1)) => match spec_read_bytes(b, p1) {
            Some((_, p2)) => match spec_read_u64(b, p2) {
                Some((_, p3)) => match spec_read_u64(b, p3) {
                    Some((_, p4)) => match spec_read_u8(b, p4) {
                        Some((_, p5)) => p5 == b.len(),
                        None => false,
                    },
                    None => false,
                },
                None => false,
            },
            None => false,
        },
        None => false,
    }
}

/// The disconnect command's fields start at `p0` and end the frame.
pub open spec fn spec_disconnect_parses(b: Seq<u8>, p0: int) -> bool {
    match spec_read_u128(b, p0) {
        Some((_, p1)) => match spec_read_u64(b, p1) {
            Some((_, p2)) => p2 == b.len(),
            None => false,
        },
        None => false,
    }
}

/// The send-file command's fields start at `p0` and end the frame.
pub open spec fn spec_send_file_parses(b: Seq<u8>, p0: int) -> bool {
    match spec_read_u128(b, p0) {
        Some((_, p1)) => match spec_read_str(b, p1) {
            Some((_, p2)) => match spec_read_u64(b, p2) {
                Some((_, p3)) => match spec_read_u64(b, p3) {
                    Some((_, p4)) => match spec_read_transfer_type(b, p4) {
                        Some(p5) => p5 == b.len(),
                        None => false,
                    },
                    None => false,
                },
                None => false,
            },
            None => false,
        },
        None => false,
    }
}

/// The download-file command's fields start at `p0` and end the frame.
pub open spec fn spec_download_file_parses(b: Seq<u8>, p0: int) -> bool {
    match spec_read_str(b, p0) {
        Some((_, p1)) => match spec_read_u8(b, p1) {
            Some((_, p2)) => match spec_read_bool(b, p2) {
                Some((_, p3)) => match spec_read_u64(b, p3) {
                    Some((_, p4)) => match spec_read_u128(b, p4) {
                        Some((_, p5)) => p5 == b.len(),
                        None => false,
                    },
                    None => false,
                },
                None => false,
            },
            None => false,
        },
        None => false,
    }
}

/// The start-group command's fields start at `p0` and end the frame.
pub open spec fn spec_start_group_parses(b: Seq<u8>, p0: int) -> bool {
    match spec_read_opt_user_list(b, p0) {
        Some(p1) => match spec_read_u64(b, p1) {
            Some((_, p2)) => match spec_read_u128(b, p2) {
                Some((_, p3)) => p3 == b.len(),
                None => false,
            },
            None => false,
        },
        None => false,
    }
}

/// Whether `b` is one whole command frame: a known tag, each field in
/// place, and nothing after the last.
pub open spec fn spec_payload_parses(b: Seq<u8>) -> bool {
    match spec_read_u8(b, 0) {
        Some((tag, p0)) => if tag == 0 {
            spec_connect_parses(b, p0)
        } else if tag == 1 {
            spec_register_parses(b, p0)
        } else if tag == 2 {
            spec_message_parses(b, p0)
        } else if tag == 3 {
            spec_disconnect_parses(b, p0)
        } else if tag == 4 {
            spec_send_file_parses(b, p0)
        } else if tag == 5 {
            spec_download_file_parses(b, p0)
        } else if tag == 6 {
            spec_start_group_parses(b, p0)
        } else {
            false
        },
        None => false,
    }
}

/// A lone connection id starts at `p0` and ends the frame.
pub open spec fn spec_resp_u64_parses(b: Seq<u8>, p0: int) -> bool {
    match spec_read_u64(b, p0) {
        Some((_, p1)) => p1 == b.len(),
        None => false,
    }
}

/// A lone session id starts at `p0` and ends the frame.
pub open spec fn spec_resp_u128_parses(b: Seq<u8>, p0: int) -> bool {
    match spec_read_u128(b, p0) {
        Some((_, p1)) => p1 == b.len(),
        None => false,
    }
}

/// A lone diagnostic text starts at `p0` and ends the frame.
pub open spec fn spec_resp_str_parses(b: Seq<u8>, p0: int) -> bool {
    match spec_read_str(b, p0) {
        Some((_, p1)) => p1 == b.len(),
        None => false,
    }
}

/// A connection id and a diagnostic text start at `p0` and end the frame.
pub open spec fn spec_resp_u64_str_parses(b: Seq<u8>, p0: int) -> bool {
    match spec_read_u64(b, p0) {
        Some((_, p1)) => match spec_read_str(b, p1) {
            Some((_, p2)) => p2 == b.len(),
            None => false,
        },
        None => false,
    }
}

/// An inbound payload's fields start at `p0` and end the frame.
pub open spec fn spec_resp_received_parses(b: Seq<u8>, p0: int) -> bool {
    match spec_read_bytes(b, p0) {
        Some((_, p1)) => match spec_read_u64(b, p1) {
            Some((_, p2)) => match spec_read_u64(b, p2) {
                Some((_, p3)) => p3 == b.len(),
                None => false,
            },
            None => false,
        },
        None => false,
    }
}

/// Whether `b` is one whole response frame: a known tag, each field in
/// place, and nothing after the last.
pub open spec fn spec_response_parses(b: Seq<u8>) -> bool {
    match spec_read_u8(b, 0) {
        Some((tag, p0)) => if tag == 0 || tag == 5 || tag == 8 || tag == 10 {
            spec_resp_u64_parses(b, p0)
        } else if tag == 1 || tag == 3 {
            spec_resp_str_parses(b, p0)
        } else if tag == 2 || tag == 4 {
            spec_resp_u128_parses(b, p0)
        } else if tag == 6 || tag == 9 || tag == 11 {
            spec_resp_u64_str_parses(b, p0)
        } else if tag == 7 {
            spec_resp_received_parses(b, p0)
        } else {
            false
        },
        None => false,
    }
}

/// Splitting a subrange at an interior point concatenates back to the whole.
pub proof fn lemma_subrange_split(s: Seq<u8>, a: int, b: int, c: int)
    requires
        0 <= a <= b <= c <= s.len(),
    ensures
        s.subrange(a, c) == s.subrange(a, b) + s.subrange(b, c),
{
    assert(s.subrange(a, c) =~= s.subrange(a, b) + s.subrange(b, c));
}

pub fn push_u32(out: &mut Vec<u8>, x: u32)
    ensures
        final(out)@ == old(out)@ + spec_enc_u32(x),
{
    out.push((x >> 24) as u8);
    out.push((x >> 16) as u8);
    out.push((x >> 8) as u8);
    out.push(x as u8);
    proof {
        assert(out@ =~= old(out)@ + spec_enc_u32(x));
    }
}

pub fn push_u64(out: &mut Vec<u8>, x: u64)
    ensures
        final(out)@ == old(out)@ + spec_enc_u64(x),
{
    push_u32(out, (x >> 32) as u32);
    push_u32(out, x as u32);
    proof {
        assert(out@ =~= old(out)@ + spec_enc_u64(x));
    }
}

pub fn push_u128(out: &mut Vec<u8>, x: u128)
    ensures
        final(out)@ == old(out)@ + spec_enc_u128(x),
{
    push_u64(out, (x >> 64) as u64);
    push_u64(out, x as u64);
    proof {
        assert(out@ =~= old(out)@ + spec_enc_u128(x));
    }
}

/// The four big-endian bytes of a `u32` determine it.
proof fn lemma_u32_from_bytes(b0: u8, b1: u8, b2: u8, b3: u8)
    ensures
        spec_enc_u32(
            ((b0 as u32) << 24) | ((b1 as u32) << 16) | ((b2 as u32) << 8) | (b3 as u32),
        ) == seq![b0, b1, b2, b3],
{
    let x = ((b0 as u32) << 24) | ((b1 as u32) << 16) | ((b2 as u32) << 8) | (b3 as u32);
    assert((x >> 24) as u8 == b0 && (x >> 16) as u8 == b1 && (x >> 8) as u8 == b2 && x as u8
        == b3) by (bit_vector)
        requires
            x == ((b0 as u32) << 24) | ((b1 as u32) << 16) | ((b2 as u32) << 8) | (b3 as u32),
    ;
    assert(spec_enc_u32(x) =~= seq![b0, b1, b2, b3]);
}

/// The two 32-bit halves of a `u64` determine it.
proof fn lemma_u64_from_words(hi: u32, lo: u32)
    ensures
        spec_enc_u64(((hi as u64) << 32) | (lo as u64)) == spec_enc_u32(hi) + spec_enc_u32(lo),
{
    let x = ((hi as u64) << 32) | (lo as u64);
    assert((x >> 32) as u32 == hi && x as u32 == lo) by (bit_vector)
        requires
            x == ((hi as u64) << 32) | (lo as u64),
    ;
}

/// The two 64-bit halves of a `u128` determine it.
proof fn lemma_u128_from_words(hi: u64, lo: u64)
    ensures
        spec_enc_u128(((hi as u128) << 64) | (lo as u128)) == spec_enc_u64(hi) + spec_enc_u64(lo),
{
    let x = ((hi as u128) << 64) | (lo as u128);
    assert((x >> 64) as u64 == hi && x as u64 == lo) by (bit_vector)
        requires
            x == ((hi as u128) << 64) | (lo as u128),
    ;
}

/// Reads one byte at `pos`.
pub fn read_u8(b: &Vec<u8>, pos: usize) -> (r: Option<(u8, usize)>)
    ensures
        match r {
            Some((v, p)) => p == pos + 1 && p <= b@.len() && b@.subrange(pos as int, p as int)
                == seq![v],
            None => pos + 1 > b@.len(),
        },
        match r {
            Some((v, p)) => spec_read_u8(b@, pos as int) == Some((v, p as int)),
            None => spec_read_u8(b@, pos as int) is None,
        },
{
    if pos < b.len() {
        let v = b[pos];
        proof {
            assert(b@.subrange(pos as int, pos + 1) =~= seq![v]);
        }
        Some((v, pos + 1))
    } else {
        None
    }
}

/// Reads a big-endian `u32` at `pos`.
pub fn read_u32(b: &Vec<u8>, pos: usize) -> (r: Option<(u32, usize)>)
    ensures
        match r {
            Some((v, p)) => p == pos + 4 && p <= b@.len() && b@.subrange(pos as int, p as int)
                == spec_enc_u32(v),
            None => pos + 4 > b@.len(),
        },
        match r {
            Some((v, p)) => spec_read_u32(b@, pos as int) == Some((v, p as int)),
            None => spec_read_u32(b@, pos as int) is None,
        },
{
    if b.len() >= 4 && pos <= b.len() - 4 {
        let b0 = b[pos];
        let b1 = b[pos + 1];
        let b2 = b[pos + 2];
        let b3 = b[pos + 3];
        let v = ((b0 as u32) << 24) | ((b1 as u32) << 16) | ((b2 as u32) << 8) | (b3 as u32);
        proof {
            lemma_u32_from_bytes(b0, b1, b2, b3);
            assert(b@.subrange(pos as int, pos + 4) =~= seq![b0, b1, b2, b3]);
        }
        Some((v, pos + 4))
    } else {
        None
    }
}

/// Reads a big-endian `u64` at `pos`.
pub fn read_u64(b: &Vec<u8>, pos: usize) -> (r: Option<(u64, usize)>)
    ensures
        match r {
            Some((v, p)) => p == pos + 8 && p <= b@.len() && b@.subrange(pos as int, p as int)
                == spec_enc_u64(v),
            None => pos + 8 > b@.len(),
        },
        match r {
            Some((v, p)) => spec_read_u64(b@, pos as int) == Some((v, p as int)),
            None => spec_read_u64(b@, pos as int) is None,
        },
{
    match read_u32(b, pos) {
        Some((hi, p1)) => match read_u32(b, p1) {
            Some((lo, p2)) => {
                let v = ((hi as u64) << 32) | (lo as u64);
                proof {
                    lemma_u64_from_words(hi, lo);
                    lemma_subrange_split(b@, pos as int, p1 as int, p2 as int);
                }
                Some((v, p2))
            },
            None => None,
        },
        None => None,
    }
}

/// Reads a big-endian `u128` at `pos`.
pub fn read_u128(b: &Vec<u8>, pos: usize) -> (r: Option<(u128, usize)>)
    ensures
        match r {
            Some((v, p)) => p == pos + 16 && p <= b@.len() && b@.subrange(pos as int, p as int)
                == spec_enc_u128(v),
            None => pos + 16 > b@.len(),
        },
        match r {
            Some((v, p)) => spec_read_u128(b@, pos as int) == Some((v, p as int)),
            None => spec_read_u128(b@, pos as int) is None,
        },
{
    match read_u64(b, pos) {
        Some((hi, p1)) => match read_u64(b, p1) {
            Some((lo, p2)) => {
                let v = ((hi as u128) << 64) | (lo as u128);
                proof {
                    lemma_u128_from_words(hi, lo);
                    lemma_subrange_split(b@, pos as int, p1 as int, p2 as int);
                }
                Some((v, p2))
            },
            None => None,
        },
        None => None,
    }
}


/// A boolean as one byte: 0 or 1.
pub open spec fn spec_enc_bool(b: bool) -> Seq<u8> {
    if b {
        seq![1u8]
    } else {
        seq![0u8]
    }
}

/// An optional duration in milliseconds: a presence byte, then the value.
pub open spec fn spec_enc_opt_u64(o: Option<u64>) -> Seq<u8> {
    match o {
        None => seq![0u8],
        Some(x) => seq![1u8] + spec_enc_u64(x),
    }
}

/// Security settings: level, secrecy mode, crypto parameters, one byte each.
pub open spec fn spec_enc_settings(s: crate::types::SessionSecuritySettings) -> Seq<u8> {
    seq![s.security_level, s.secrecy_mode, s.crypto_params]
}

/// A connect mode as one tag byte.
pub open spec fn spec_enc_connect_mode(m: crate::types::ConnectMode) -> Seq<u8> {
    match m {
        crate::types::ConnectMode::Standard => seq![0u8],
        crate::types::ConnectMode::Fetch => seq![1u8],
    }
}

/// A UDP mode as one tag byte.
pub open spec fn spec_enc_udp_mode(m: crate::types::UdpMode) -> Seq<u8> {
    match m {
        crate::types::UdpMode::Disabled => seq![0u8],
        crate::types::UdpMode::Enabled => seq![1u8],
    }
}

/// A transfer type: a tag byte, then the virtual-filesystem parameters.
pub open spec fn spec_enc_transfer_type(t: crate::types::TransferType) -> Seq<u8> {
    match t {
        crate::types::TransferType::FileTransfer => seq![0u8],
        crate::types::TransferType::RemoteVirtualFilesystem { virtual_path, security_level } => seq![
            1u8,
        ] + spec_enc_str(virtual_path@) + seq![security_level],
    }
}

/// A peer identifier: a tag byte, then the id or the name.
pub open spec fn spec_enc_user(u: crate::types::UserIdentifier) -> Seq<u8> {
    match u {
        crate::types::UserIdentifier::Id(x) => seq![0u8] + spec_enc_u64(x),
        crate::types::UserIdentifier::Username(s) => seq![1u8] + spec_enc_str(s@),
    }
}

/// The identifiers of a list, in order, without a count.
pub open spec fn spec_enc_user_seq(s: Seq<crate::types::UserIdentifier>) -> Seq<u8>
    decreases s.len(),
{
    if s.len() == 0 {
        Seq::empty()
    } else {
        spec_enc_user_seq(s.drop_last()) + spec_enc_user(s.last())
    }
}

/// A list of peer identifiers: a 64-bit count, then each in order.
pub open spec fn spec_enc_user_list(s: Seq<crate::types::UserIdentifier>) -> Seq<u8> {
    spec_enc_u64(s.len() as u64) + spec_enc_user_seq(s)
}

/// An optional invite list: a presence byte, then the list.
pub open spec fn spec_enc_opt_user_list(o: Option<Vec<crate::types::UserIdentifier>>) -> Seq<u8> {
    match o {
        None => seq![0u8],
        Some(v) => seq![1u8] + spec_enc_user_list(v@),
    }
}

pub fn push_u8(out: &mut Vec<u8>, x: u8)
    ensures
        final(out)@ == old(out)@ + seq![x],
{
    out.push(x);
    proof {
        assert(out@ =~= old(out)@ + seq![x]);
    }
}

pub fn push_bool(out: &mut Vec<u8>, b: bool)
    ensures
        final(out)@ == old(out)@ + spec_enc_bool(b),
{
    if b {
        push_u8(out, 1);
    } else {
        push_u8(out, 0);
    }
}

fn push_slice_bytes(out: &mut Vec<u8>, data: &[u8])
    ensures
        final(out)@ == old(out)@ + data@,
{
    let mut i: usize = 0;
    while i < data.len()
        invariant
            i <= data@.len(),
            out@ == old(out)@ + data@.subrange(0, i as int),
        decreases data@.len() - i,
    {
        let x = data[i];
        out.push(x);
        proof {
            assert(out@ =~= old(out)@ + data@.subrange(0, i + 1));
        }
        i = i + 1;
    }
    proof {
        assert(data@.subrange(0, data@.len() as int) =~= data@);
    }
}

pub fn push_bytes(out: &mut Vec<u8>, data: &Vec<u8>)
    ensures
        final(out)@ == old(out)@ + spec_enc_bytes(data@),
{
    push_u64(out, data.len() as u64);
    push_slice_bytes(out, data.as_slice());
    proof {
        assert(out@ =~= old(out)@ + spec_enc_bytes(data@));
    }
}

pub fn push_string(out: &mut Vec<u8>, s: &String)
    ensures
        final(out)@ == old(out)@ + spec_enc_str(s@),
{
    let bs = s.as_str().as_bytes();
    push_u64(out, bs.len() as u64);
    push_slice_bytes(out, bs);
    proof {
        assert(bs@ == vstd::utf8::encode_utf8(s@));
        assert(out@ =~= old(out)@ + spec_enc_str(s@));
    }
}

pub fn push_opt_u64(out: &mut Vec<u8>, o: &Option<u64>)
    ensures
        final(out)@ == old(out)@ + spec_enc_opt_u64(*o),
{
    match o {
        None => push_u8(out, 0),
        Some(x) => {
            push_u8(out, 1);
            push_u64(out, *x);
            proof {
                assert(out@ =~= old(out)@ + spec_enc_opt_u64(*o));
            }
        },
    }
}

pub fn push_settings(out: &mut Vec<u8>, s: &crate::types::SessionSecuritySettings)
    ensures
        final(out)@ == old(out)@ + spec_enc_settings(*s),
{
    push_u8(out, s.security_level);
    push_u8(out, s.secrecy_mode);
    push_u8(out, s.crypto_params);
    proof {
        assert(out@ =~= old(out)@ + spec_enc_settings(*s));
    }
}

pub fn push_connect_mode(out: &mut Vec<u8>, m: &crate::types::ConnectMode)
    ensures
        final(out)@ == old(out)@ + spec_enc_connect_mode(*m),
{
    match m {
        crate::types::ConnectMode::Standard => push_u8(out, 0),
        crate::types::ConnectMode::Fetch => push_u8(out, 1),
    }
}

pub fn push_udp_mode(out: &mut Vec<u8>, m: &crate::types::UdpMode)
    ensures
        final(out)@ == old(out)@ + spec_enc_udp_mode(*m),
{
    match m {
        crate::types::UdpMode::Disabled => push_u8(out, 0),
        crate::types::UdpMode::Enabled => push_u8(out, 1),
    }
}

pub fn push_transfer_type(out: &mut Vec<u8>, t: &crate::types::TransferType)
    ensures
        final(out)@ == old(out)@ + spec_enc_transfer_type(*t),
{
    match t {
        crate::types::TransferType::FileTransfer => push_u8(out, 0),
        crate::types::TransferType::RemoteVirtualFilesystem { virtual_path, security_level } => {
            push_u8(out, 1);
            push_string(out, virtual_path);
            push_u8(out, *security_level);
            proof {
                assert(out@ =~= old(out)@ + spec_enc_transfer_type(*t));
            }
        },
    }
}

pub fn push_user(out: &mut Vec<u8>, u: &crate::types::UserIdentifier)
    ensures
        final(out)@ == old(out)@ + spec_enc_user(*u),
{
    match u {
        crate::types::UserIdentifier::Id(x) => {
            push_u8(out, 0);
            push_u64(out, *x);
            proof {
                assert(out@ =~= old(out)@ + spec_enc_user(*u));
            }
        },
        crate::types::UserIdentifier::Username(s) => {
            push_u8(out, 1);
            push_string(out, s);
            proof {
                assert(out@ =~= old(out)@ + spec_enc_user(*u));
            }
        },
    }
}

pub fn push_user_list(out: &mut Vec<u8>, v: &Vec<crate::types::UserIdentifier>)
    ensures
        final(out)@ == old(out)@ + spec_enc_user_list(v@),
{
    push_u64(out, v.len() as u64);
    let mut i: usize = 0;
    while i < v.len()
        invariant
            i <= v@.len(),
            out@ == old(out)@ + spec_enc_u64(v@.len() as u64) + spec_enc_user_seq(
                v@.subrange(0, i as int),
            ),
        decreases v@.len() - i,
    {
        push_user(out, &v[i]);
        proof {
            let pre = v@.subrange(0, i as int);
            let cur = v@.subrange(0, i + 1);
            assert(cur.drop_last() =~= pre);
            assert(cur.last() == v@[i as int]);
            assert(spec_enc_user_seq(cur) == spec_enc_user_seq(pre) + spec_enc_user(v@[i as int]));
            assert(out@ =~= old(out)@ + spec_enc_u64(v@.len() as u64) + spec_enc_user_seq(cur));
        }
        i = i + 1;
    }
    proof {
        assert(v@.subrange(0, v@.len() as int) =~= v@);
        assert(out@ =~= old(out)@ + spec_enc_user_list(v@));
    }
}

pub fn push_opt_user_list(out: &mut Vec<u8>, o: &Option<Vec<crate::types::UserIdentifier>>)
    ensures
        final(out)@ == old(out)@ + spec_enc_opt_user_list(*o),
{
    match o {
        None => push_u8(out, 0),
        Some(v) => {
            push_u8(out, 1);
            push_user_list(out, v);
            proof {
                assert(out@ =~= old(out)@ + spec_enc_opt_user_list(*o));
            }
        },
    }
}


/// Relies on `String::from_utf8`: `Ok` exactly on valid UTF-8, and the
/// returned string's bytes are exactly the input bytes.
#[verifier::external_body]
fn bytes_to_string(v: Vec<u8>) -> (r: Option<String>)
    ensures
        match r {
            Some(s) => vstd::utf8::encode_utf8(s@) == v@ && vstd::utf8::valid_utf8(v@),
            None => !vstd::utf8::valid_utf8(v@),
        },
{
    String::from_utf8(v).ok()
}

/// Reads a length-prefixed byte string at `pos`.
fn read_bytes(b: &Vec<u8>, pos: usize) -> (r: Option<(Vec<u8>, usize)>)
    ensures
        match r {
            Some((v, p)) => pos <= p <= b@.len() && b@.subrange(pos as int, p as int)
                == spec_enc_bytes(v@),
            None => true,
        },
        match r {
            Some((v, p)) => spec_read_bytes(b@, pos as int) == Some((v@, p as int)),
            None => spec_read_bytes(b@, pos as int) is None,
        },
{
    match read_u64(b, pos) {
        Some((len, p1)) => {
            if len <= (b.len() - p1) as u64 {
                let n = len as usize;
                proof {
                    assert(n == len);
                    assert(p1 + n <= b@.len());
                }
                let mut v: Vec<u8> = Vec::new();
                let mut i: usize = 0;
                while i < n
                    invariant
                        i <= n,
                        p1 + n <= b@.len(),
                        b@.len() <= usize::MAX,
                        v@ == b@.subrange(p1 as int, p1 + i as int),
                    decreases n - i,
                {
                    let x = b[p1 + i];
                    v.push(x);
                    proof {
                        assert(v@ =~= b@.subrange(p1 as int, p1 + (i + 1)));
                    }
                    i = i + 1;
                }
                proof {
                    lemma_subrange_split(b@, pos as int, p1 as int, p1 + n as int);
                    assert(v@.len() == n);
                    assert(b@.subrange(pos as int, p1 + n as int) =~= spec_enc_bytes(v@));
                }
                Some((v, p1 + n))
            } else {
                None
            }
        },
        None => None,
    }
}

/// Reads length-prefixed UTF-8 text at `pos`.
fn read_string(b: &Vec<u8>, pos: usize) -> (r: Option<(String, usize)>)
    ensures
        match r {
            Some((s, p)) => pos <= p <= b@.len() && b@.subrange(pos as int, p as int)
                == spec_enc_str(s@),
            None => true,
        },
        match r {
            Some((s, p)) => spec_read_str(b@, pos as int) == Some((s@, p as int)),
            None => spec_read_str(b@, pos as int) is None,
        },
{
    match read_bytes(b, pos) {
        Some((v, p)) => {
            let ghost bytes = v@;
            match bytes_to_string(v) {
                Some(s) => {
                    proof {
                        assert(b@.subrange(pos as int, p as int) == spec_enc_str(s@));
                        vstd::utf8::encode_utf8_decode_utf8(s@);
                        assert(vstd::utf8::decode_utf8(bytes) == s@);
                    }
                    Some((s, p))
                },
                None => None,
            }
        },
        None => None,
    }
}

/// Reads a boolean byte at `pos`; only 0 and 1 are encodings.
fn read_bool(b: &Vec<u8>, pos: usize) -> (r: Option<(bool, usize)>)
    ensures
        match r {
            Some((v, p)) => pos <= p <= b@.len() && b@.subrange(pos as int, p as int)
                == spec_enc_bool(v),
            None => true,
        },
        match r {
            Some((v, p)) => spec_read_bool(b@, pos as int) == Some((v, p as int)),
            None => spec_read_bool(b@, pos as int) is None,
        },
{
    match read_u8(b, pos) {
        Some((0, p)) => Some((false, p)),
        Some((1, p)) => Some((true, p)),
        _ => None,
    }
}

/// Reads an optional 64-bit value at `pos`.
fn read_opt_u64(b: &Vec<u8>, pos: usize) -> (r: Option<(Option<u64>, usize)>)
    ensures
        match r {
            Some((v, p)) => pos <= p <= b@.len() && b@.subrange(pos as int, p as int)
                == spec_enc_opt_u64(v),
            None => true,
        },
        match r {
            Some((v, p)) => spec_read_opt_u64(b@, pos as int) == Some((v, p as int)),
            None => spec_read_opt_u64(b@, pos as int) is None,
        },
{
    match read_u8(b, pos) {
        Some((0, p)) => Some((None, p)),
        Some((1, p1)) => match read_u64(b, p1) {
            Some((x, p2)) => {
                proof {
                    lemma_subrange_split(b@, pos as int, p1 as int, p2 as int);
                }
                Some((Some(x), p2))
            },
            None => None,
        },
        _ => None,
    }
}

/// Reads security settings at `pos`.
fn read_settings(b: &Vec<u8>, pos: usize) -> (r: Option<
    (crate::types::SessionSecuritySettings, usize),
>)
    ensures
        match r {
            Some((v, p)) => pos <= p <= b@.len() && b@.subrange(pos as int, p as int)
                == spec_enc_settings(v),
            None => true,
        },
        match r {
            Some((v, p)) => spec_read_settings(b@, pos as int) == Some((v, p as int)),
            None => spec_read_settings(b@, pos as int) is None,
        },
{
    match read_u8(b, pos) {
        Some((security_level, p1)) => match read_u8(b, p1) {
            Some((secrecy_mode, p2)) => match read_u8(b, p2) {
                Some((crypto_params, p3)) => {
                    let v = crate::types::SessionSecuritySettings {
                        security_level,
                        secrecy_mode,
                        crypto_params,
                    };
                    proof {
                        lemma_subrange_split(b@, pos as int, p1 as int, p2 as int);
                        lemma_subrange_split(b@, pos as int, p2 as int, p3 as int);
                        assert(b@.subrange(pos as int, p3 as int) =~= spec_enc_settings(v));
                    }
                    Some((v, p3))
                },
                None => None,
            },
            None => None,
        },
        None => None,
    }
}

/// Reads a connect mode at `pos`.
fn read_connect_mode(b: &Vec<u8>, pos: usize) -> (r: Option<(crate::types::ConnectMode, usize)>)
    ensures
        match r {
            Some((v, p)) => pos <= p <= b@.len() && b@.subrange(pos as int, p as int)
                == spec_enc_connect_mode(v),
            None => true,
        },
        match r {
            Some((v, p)) => spec_read_connect_mode(b@, pos as int) == Some((v, p as int)),
            None => spec_read_connect_mode(b@, pos as int) is None,
        },
{
    match read_u8(b, pos) {
        Some((0, p)) => Some((crate::types::ConnectMode::Standard, p)),
        Some((1, p)) => Some((crate::types::ConnectMode::Fetch, p)),
        _ => None,
    }
}

/// Reads a UDP mode at `pos`.
fn read_udp_mode(b: &Vec<u8>, pos: usize) -> (r: Option<(crate::types::UdpMode, usize)>)
    ensures
        match r {
            Some((v, p)) => pos <= p <= b@.len() && b@.subrange(pos as int, p as int)
                == spec_enc_udp_mode(v),
            None => true,
        },
        match r {
            Some((v, p)) => spec_read_udp_mode(b@, pos as int) == Some((v, p as int)),
            None => spec_read_udp_mode(b@, pos as int) is None,
        },
{
    match read_u8(b, pos) {
        Some((0, p)) => Some((crate::types::UdpMode::Disabled, p)),
        Some((1, p)) => Some((crate::types::UdpMode::Enabled, p)),
        _ => None,
    }
}

/// Reads a transfer type at `pos`.
fn read_transfer_type(b: &Vec<u8>, pos: usize) -> (r: Option<(crate::types::TransferType, usize)>)
    ensures
        match r {
            Some((v, p)) => pos <= p <= b@.len() && b@.subrange(pos as int, p as int)
                == spec_enc_transfer_type(v),
            None => true,
        },
        match r {
            Some((v, p)) => spec_read_transfer_type(b@, pos as int) == Some(p as int),
            None => spec_read_transfer_type(b@, pos as int) is None,
        },
{
    match read_u8(b, pos) {
        Some((0, p)) => Some((crate::types::TransferType::FileTransfer, p)),
        Some((1, p1)) => match read_string(b, p1) {
            Some((virtual_path, p2)) => match read_u8(b, p2) {
                Some((security_level, p3)) => {
                    let v = crate::types::TransferType::RemoteVirtualFilesystem {
                        virtual_path,
                        security_level,
                    };
                    proof {
                        lemma_subrange_split(b@, pos as int, p1 as int, p2 as int);
                        lemma_subrange_split(b@, pos as int, p2 as int, p3 as int);
                        assert(b@.subrange(pos as int, p3 as int) =~= spec_enc_transfer_type(v));
                    }
                    Some((v, p3))
                },
                None => None,
            },
            None => None,
        },
        _ => None,
    }
}

/// Reads a peer identifier at `pos`.
fn read_user(b: &Vec<u8>, pos: usize) -> (r: Option<(crate::types::UserIdentifier, usize)>)
    ensures
        match r {
            Some((v, p)) => pos <= p <= b@.len() && b@.subrange(pos as int, p as int)
                == spec_enc_user(v),
            None => true,
        },
        match r {
            Some((v, p)) => spec_read_user(b@, pos as int) == Some(p as int),
            None => spec_read_user(b@, pos as int) is None,
        },
{
    match read_u8(b, pos) {
        Some((0, p1)) => match read_u64(b, p1) {
            Some((x, p2)) => {
                proof {
                    lemma_subrange_split(b@, pos as int, p1 as int, p2 as int);
                }
                Some((crate::types::UserIdentifier::Id(x), p2))
            },
            None => None,
        },
        Some((1, p1)) => match read_string(b, p1) {
            Some((s, p2)) => {
                proof {
                    lemma_subrange_split(b@, pos as int, p1 as int, p2 as int);
                }
                Some((crate::types::UserIdentifier::Username(s), p2))
            },
            None => None,
        },
        _ => None,
    }
}

/// Reads a counted list of peer identifiers at `pos`.
fn read_user_list(b: &Vec<u8>, pos: usize) -> (r: Option<
    (Vec<crate::types::UserIdentifier>, usize),
>)
    ensures
        match r {
            Some((v, p)) => pos <= p <= b@.len() && b@.subrange(pos as int, p as int)
                == spec_enc_user_list(v@),
            None => true,
        },
        match r {
            Some((v, p)) => spec_read_user_list(b@, pos as int) == Some(p as int),
            None => spec_read_user_list(b@, pos as int) is None,
        },
{
    match read_u64(b, pos) {
        Some((count, p1)) => {
            let mut acc: Vec<crate::types::UserIdentifier> = Vec::new();
            let mut p: usize = p1;
            let mut i: u64 = 0;
            while i < count
                invariant
                    i <= count,
                    pos <= p <= b@.len(),
                    acc@.len() == i,
                    b@.subrange(pos as int, p as int) == spec_enc_u64(count) + spec_enc_user_seq(
                        acc@,
                    ),
                    spec_read_users(b@, p1 as int, count as int) == spec_read_users(
                        b@,
                        p as int,
                        count - i,
                    ),
                    spec_read_u64(b@, pos as int) == Some((count, p1 as int)),
                decreases count - i,
            {
                match read_user(b, p) {
                    Some((u, p2)) => {
                        let ghost pre = acc@;
                        acc.push(u);
                        proof {
                            lemma_subrange_split(b@, pos as int, p as int, p2 as int);
                            assert(acc@.drop_last() =~= pre);
                            assert(spec_enc_user_seq(acc@) == spec_enc_user_seq(pre)
                                + spec_enc_user(u));
                            assert(b@.subrange(pos as int, p2 as int) =~= spec_enc_u64(count)
                                + spec_enc_user_seq(acc@));
                            assert(spec_read_users(b@, p as int, count - i) == spec_read_users(
                                b@,
                                p2 as int,
                                count - i - 1,
                            ));
                        }
                        p = p2;
                        i = i + 1;
                    },
                    None => {
                        proof {
                            assert(spec_read_users(b@, p as int, count - i) is None);
                            assert(spec_read_users(b@, p1 as int, count as int) is None);
                            assert(spec_read_user_list(b@, pos as int) is None);
                        }
                        return None;
                    },
                }
            }
            proof {
                assert(acc@.len() as u64 == count);
                assert(spec_read_users(b@, p as int, 0) == Some(p as int));
            }
            Some((acc, p))
        },
        None => None,
    }
}

/// Reads an optional invite list at `pos`.
fn read_opt_user_list(b: &Vec<u8>, pos: usize) -> (r: Option<
    (Option<Vec<crate::types::UserIdentifier>>, usize),
>)
    ensures
        match r {
            Some((v, p)) => pos <= p <= b@.len() && b@.subrange(pos as int, p as int)
                == spec_enc_opt_user_list(v),
            None => true,
        },
        match r {
            Some((v, p)) => spec_read_opt_user_list(b@, pos as int) == Some(p as int),
            None => spec_read_opt_user_list(b@, pos as int) is None,
        },
{
    match read_u8(b, pos) {
        Some((0, p)) => Some((None, p)),
        Some((1, p1)) => match read_user_list(b, p1) {
            Some((v, p2)) => {
                proof {
                    lemma_subrange_split(b@, pos as int, p1 as int, p2 as int);
                }
                Some((Some(v), p2))
            },
            None => None,
        },
        _ => None,
    }
}


/// The byte encoding of one client command: a tag byte, then its fields.
pub open spec fn spec_encode_payload(p: crate::types::InternalServicePayload) -> Seq<u8> {
    match p {
        crate::types::InternalServicePayload::Connect {
            uuid,
            username,
            password,
            connect_mode,
            udp_mode,
            keep_alive_timeout_millis,
            session_security_settings,
        } => seq![0u8] + spec_enc_u128(uuid) + spec_enc_str(username@) + spec_enc_bytes(password@)
            + spec_enc_connect_mode(connect_mode) + spec_enc_udp_mode(udp_mode)
            + spec_enc_opt_u64(keep_alive_timeout_millis) + spec_enc_settings(
            session_security_settings,
        ),
        crate::types::InternalServicePayload::Register {
            uuid,
            server_addr,
            full_name,
            username,
            proposed_password,
            default_security_settings,
        } => seq![1u8] + spec_enc_u128(uuid) + spec_enc_str(server_addr@) + spec_enc_str(
            full_name@,
        ) + spec_enc_str(username@) + spec_enc_bytes(proposed_password@) + spec_enc_settings(
            default_security_settings,
        ),
        crate::types::InternalServicePayload::Message {
            uuid,
            message,
            cid,
            user_cid,
            security_level,
        } => seq![2u8] + spec_enc_u128(uuid) + spec_enc_bytes(message@) + spec_enc_u64(cid)
            + spec_enc_u64(user_cid) + seq![security_level],
        crate::types::InternalServicePayload::Disconnect { uuid, cid } => seq![3u8]
            + spec_enc_u128(uuid) + spec_enc_u64(cid),
        crate::types::InternalServicePayload::SendFile {
            uuid,
            source,
            cid,
            chunk_size,
            transfer_type,
        } => seq![4u8] + spec_enc_u128(uuid) + spec_enc_str(source@) + spec_enc_u64(cid)
            + spec_enc_u64(chunk_size) + spec_enc_transfer_type(transfer_type),
        crate::types::InternalServicePayload::DownloadFile {
            virtual_path,
            transfer_security_level,
            delete_on_pull,
            cid,
            uuid,
        } => seq![5u8] + spec_enc_str(virtual_path@) + seq![transfer_security_level]
            + spec_enc_bool(delete_on_pull) + spec_enc_u64(cid) + spec_enc_u128(uuid),
        crate::types::InternalServicePayload::StartGroup {
            initial_users_to_invite,
            cid,
            uuid,
        } => seq![6u8] + spec_enc_opt_user_list(initial_users_to_invite) + spec_enc_u64(cid)
            + spec_enc_u128(uuid),
    }
}

/// The byte encoding of one response: a tag byte, then its fields.
pub open spec fn spec_encode_response(r: crate::types::InternalServiceResponse) -> Seq<u8> {
    match r {
        crate::types::InternalServiceResponse::ConnectSuccess { cid } => seq![0u8] + spec_enc_u64(
            cid,
        ),
        crate::types::InternalServiceResponse::ConnectionFailure { message } => seq![1u8]
            + spec_enc_str(message@),
        crate::types::InternalServiceResponse::RegisterSuccess { id } => seq![2u8]
            + spec_enc_u128(id),
        crate::types::InternalServiceResponse::RegisterFailure { message } => seq![3u8]
            + spec_enc_str(message@),
        crate::types::InternalServiceResponse::ServiceConnectionAccepted { id } => seq![4u8]
            + spec_enc_u128(id),
        crate::types::InternalServiceResponse::MessageSent { cid } => seq![5u8] + spec_enc_u64(
            cid,
        ),
        crate::types::InternalServiceResponse::MessageSendError { cid, message } => seq![6u8]
            + spec_enc_u64(cid) + spec_enc_str(message@),
        crate::types::InternalServiceResponse::MessageReceived { message, cid, peer_cid } => seq![
            7u8,
        ] + spec_enc_bytes(message@) + spec_enc_u64(cid) + spec_enc_u64(peer_cid),
        crate::types::InternalServiceResponse::DisconnectSuccess { cid } => seq![8u8]
            + spec_enc_u64(cid),
        crate::types::InternalServiceResponse::DisconnectFailure { cid, message } => seq![9u8]
            + spec_enc_u64(cid) + spec_enc_str(message@),
        crate::types::InternalServiceResponse::SendFileSuccess { cid } => seq![10u8]
            + spec_enc_u64(cid),
        crate::types::InternalServiceResponse::SendFileFailure { cid, message } => seq![11u8]
            + spec_enc_u64(cid) + spec_enc_str(message@),
    }
}

/// Encodes one client command.
pub fn encode_payload(p: &crate::types::InternalServicePayload) -> (r: Vec<u8>)
    ensures
        r@ == spec_encode_payload(*p),
{
    let mut out: Vec<u8> = Vec::new();
    match p {
        crate::types::InternalServicePayload::Connect {
            uuid,
            username,
            password,
            connect_mode,
            udp_mode,
            keep_alive_timeout_millis,
            session_security_settings,
        } => {
            push_u8(&mut out, 0);
            push_u128(&mut out, *uuid);
            push_string(&mut out, username);
            push_bytes(&mut out, password);
            push_connect_mode(&mut out, connect_mode);
            push_udp_mode(&mut out, udp_mode);
            push_opt_u64(&mut out, keep_alive_timeout_millis);
            push_settings(&mut out, session_security_settings);
            proof {
                assert(out@ =~= spec_encode_payload(*p));
            }
        },
        crate::types::InternalServicePayload::Register {
            uuid,
            server_addr,
            full_name,
            username,
            proposed_password,
            default_security_settings,
        } => {
            push_u8(&mut out, 1);
            push_u128(&mut out, *uuid);
            push_string(&mut out, server_addr);
            push_string(&mut out, full_name);
            push_string(&mut out, username);
            push_bytes(&mut out, proposed_password);
            push_settings(&mut out, default_security_settings);
            proof {
                assert(out@ =~= spec_encode_payload(*p));
            }
        },
        crate::types::InternalServicePayload::Message {
            uuid,
            message,
            cid,
            user_cid,
            security_level,
        } => {
            push_u8(&mut out, 2);
            push_u128(&mut out, *uuid);
            push_bytes(&mut out, message);
            push_u64(&mut out, *cid);
            push_u64(&mut out, *user_cid);
            push_u8(&mut out, *security_level);
            proof {
                assert(out@ =~= spec_encode_payload(*p));
            }
        },
        crate::types::InternalServicePayload::Disconnect { uuid, cid } => {
            push_u8(&mut out, 3);
            push_u128(&mut out, *uuid);
            push_u64(&mut out, *cid);
            proof {
                assert(out@ =~= spec_encode_payload(*p));
            }
        },
        crate::types::InternalServicePayload::SendFile {
            uuid,
            source,
            cid,
            chunk_size,
            transfer_type,
        } => {
            push_u8(&mut out, 4);
            push_u128(&mut out, *uuid);
            push_string(&mut out, source);
            push_u64(&mut out, *cid);
            push_u64(&mut out, *chunk_size);
            push_transfer_type(&mut out, transfer_type);
            proof {
                assert(out@ =~= spec_encode_payload(*p));
            }
        },
        crate::types::InternalServicePayload::DownloadFile {
            virtual_path,
            transfer_security_level,
            delete_on_pull,
            cid,
            uuid,
        } => {
            push_u8(&mut out, 5);
            push_string(&mut out, virtual_path);
            push_u8(&mut out, *transfer_security_level);
            push_bool(&mut out, *delete_on_pull);
            push_u64(&mut out, *cid);
            push_u128(&mut out, *uuid);
            proof {
                assert(out@ =~= spec_encode_payload(*p));
            }
        },
        crate::types::InternalServicePayload::StartGroup {
            initial_users_to_invite,
            cid,
            uuid,
        } => {
            push_u8(&mut out, 6);
            push_opt_user_list(&mut out, initial_users_to_invite);
            push_u64(&mut out, *cid);
            push_u128(&mut out, *uuid);
            proof {
                assert(out@ =~= spec_encode_payload(*p));
            }
        },
    }
    out
}

/// Encodes one response.
pub fn encode_response(r: &crate::types::InternalServiceResponse) -> (out: Vec<u8>)
    ensures
        out@ == spec_encode_response(*r),
{
    let mut out: Vec<u8> = Vec::new();
    match r {
        crate::types::InternalServiceResponse::ConnectSuccess { cid } => {
            push_u8(&mut out, 0);
            push_u64(&mut out, *cid);
        },
        crate::types::InternalServiceResponse::ConnectionFailure { message } => {
            push_u8(&mut out, 1);
            push_string(&mut out, message);
        },
        crate::types::InternalServiceResponse::RegisterSuccess { id } => {
            push_u8(&mut out, 2);
            push_u128(&mut out, *id);
        },
        crate::types::InternalServiceResponse::RegisterFailure { message } => {
            push_u8(&mut out, 3);
            push_string(&mut out, message);
        },
        crate::types::InternalServiceResponse::ServiceConnectionAccepted { id } => {
            push_u8(&mut out, 4);
            push_u128(&mut out, *id);
        },
        crate::types::InternalServiceResponse::MessageSent { cid } => {
            push_u8(&mut out, 5);
            push_u64(&mut out, *cid);
        },
        crate::types::InternalServiceResponse::MessageSendError { cid, message } => {
            push_u8(&mut out, 6);
            push_u64(&mut out, *cid);
            push_string(&mut out, message);
        },
        crate::types::InternalServiceResponse::MessageReceived { message, cid, peer_cid } => {
            push_u8(&mut out, 7);
            push_bytes(&mut out, message);
            push_u64(&mut out, *cid);
            push_u64(&mut out, *peer_cid);
        },
        crate::types::InternalServiceResponse::DisconnectSuccess { cid } => {
            push_u8(&mut out, 8);
            push_u64(&mut out, *cid);
        },
        crate::types::InternalServiceResponse::DisconnectFailure { cid, message } => {
            push_u8(&mut out, 9);
            push_u64(&mut out, *cid);
            push_string(&mut out, message);
        },
        crate::types::InternalServiceResponse::SendFileSuccess { cid } => {
            push_u8(&mut out, 10);
            push_u64(&mut out, *cid);
        },
        crate::types::InternalServiceResponse::SendFileFailure { cid, message } => {
            push_u8(&mut out, 11);
            push_u64(&mut out, *cid);
            push_string(&mut out, message);
        },
    }
    proof {
        assert(out@ =~= spec_encode_response(*r));
    }
    out
}


/// Decodes the fields of one command variant, the tag already read.
#[verifier::rlimit(100)]
fn decode_connect(b: &Vec<u8>) -> (r: Option<crate::types::InternalServicePayload>)
    requires
        b@.len() >= 1,
        b@.subrange(0, 1) == seq![0u8],
    ensures
        r matches Some(p) ==> b@ == spec_encode_payload(p),
        (r is Some) == spec_connect_parses(b@, 1),
{
    let end = b.len();
    let p0: usize = 1;
    match read_u128(b, p0) {
    Some((uuid, p1)) => match read_string(b, p1) {
        Some((username, p2)) => match read_bytes(b, p2) {
            Some((password, p3)) => match read_connect_mode(b, p3) {
                Some((connect_mode, p4)) => match read_udp_mode(b, p4) {
                    Some((udp_mode, p5)) => match read_opt_u64(b, p5) {
                        Some((keep_alive_timeout_millis, p6)) => match read_settings(
                            b,
                            p6,
                        ) {
                            Some((session_security_settings, p7)) => {
                                if p7 == end {
                                    let out =
                                        crate::types::InternalServicePayload::Connect {
                                        uuid,
                                        username,
                                        password,
                                        connect_mode,
                                        udp_mode,
                                        keep_alive_timeout_millis,
                                        session_security_settings,
                                    };
                                    proof {
                                        lemma_subrange_split(b@, 0, p0 as int, p1 as int);
                                        lemma_subrange_split(b@, 0, p1 as int, p2 as int);
                                        lemma_subrange_split(b@, 0, p2 as int, p3 as int);
                                        lemma_subrange_split(b@, 0, p3 as int, p4 as int);
                                        lemma_subrange_split(b@, 0, p4 as int, p5 as int);
                                        lemma_subrange_split(b@, 0, p5 as int, p6 as int);
                                        lemma_subrange_split(b@, 0, p6 as int, p7 as int);
                                        assert(b@ =~= b@.subrange(0, b@.len() as int));
                                        assert(b@ == spec_encode_payload(out));
                                    }
                                    Some(out)
                                } else {
                                    None
                                }
                            },
                            None => None,
                        },
                        None => None,
                    },
                    None => None,
                },
                None => None,
            },
            None => None,
        },
        None => None,
    },
    None => None,
}
}

/// Decodes the fields of one command variant, the tag already read.
#[verifier::rlimit(100)]
fn decode_register(b: &Vec<u8>) -> (r: Option<crate::types::InternalServicePayload>)
    requires
        b@.len() >= 1,
        b@.subrange(0, 1) == seq![1u8],
    ensures
        r matches Some(p) ==> b@ == spec_encode_payload(p),
        (r is Some) == spec_register_parses(b@, 1),
{
    let end = b.len();
    let p0: usize = 1;
    match read_u128(b, p0) {
    Some((uuid, p1)) => match read_string(b, p1) {
        Some((server_addr, p2)) => match read_string(b, p2) {
            Some((full_name, p3)) => match read_string(b, p3) {
                Some((username, p4)) => match read_bytes(b, p4) {
                    Some((proposed_password, p5)) => match read_settings(b, p5) {
                        Some((default_security_settings, p6)) => {
                            if p6 == end {
                                let out = crate::types::InternalServicePayload::Register {
                                    uuid,
                                    server_addr,
                                    full_name,
                                    username,
                                    proposed_password,
                                    default_security_settings,
                                };
                                proof {
                                    lemma_subrange_split(b@, 0, p0 as int, p1 as int);
                                    lemma_subrange_split(b@, 0, p1 as int, p2 as int);
                                    lemma_subrange_split(b@, 0, p2 as int, p3 as int);
                                    lemma_subrange_split(b@, 0, p3 as int, p4 as int);
                                    lemma_subrange_split(b@, 0, p4 as int, p5 as int);
                                    lemma_subrange_split(b@, 0, p5 as int, p6 as int);
                                    assert(b@ =~= b@.subrange(0, b@.len() as int));
                                    assert(b@ == spec_encode_payload(out));
                                }
                                Some(out)
                            } else {
                                None
                            }
                        },
                        None => None,
                    },
                    None => None,
                },
                None => None,
            },
            None => None,
        },
        None => None,
    },
    None => None,
}
}

/// Decodes the fields of one command variant, the tag already read.
#[verifier::rlimit(100)]
fn decode_message(b: &Vec<u8>) -> (r: Option<crate::types::InternalServicePayload>)
    requires
        b@.len() >= 1,
        b@.subrange(0, 1) == seq![2u8],
    ensures
        r matches Some(p) ==> b@ == spec_encode_payload(p),
        (r is Some) == spec_message_parses(b@, 1),
{
    let end = b.len();
    let p0: usize = 1;
    match read_u128(b, p0) {
    Some((uuid, p1)) => match read_bytes(b, p1) {
        Some((message, p2)) => match read_u64(b, p2) {
            Some((cid, p3)) => match read_u64(b, p3) {
                Some((user_cid, p4)) => match read_u8(b, p4) {
                    Some((security_level, p5)) => {
                        if p5 == end {
                            let out = crate::types::InternalServicePayload::Message {
                                uuid,
                                message,
                                cid,
                                user_cid,
                                security_level,
                            };
                            proof {
                                lemma_subrange_split(b@, 0, p0 as int, p1 as int);
                                lemma_subrange_split(b@, 0, p1 as int, p2 as int);
                                lemma_subrange_split(b@, 0, p2 as int, p3 as int);
                                lemma_subrange_split(b@, 0, p3 as int, p4 as int);
                                lemma_subrange_split(b@, 0, p4 as int, p5 as int);
                                assert(b@ =~= b@.subrange(0, b@.len() as int));
                                assert(b@ == spec_encode_payload(out));
                            }
                            Some(out)
                        } else {
                            None
                        }
                    },
                    None => None,
                },
                None => None,
            },
            None => None,
        },
        None => None,
    },
    None => None,
}
}

/// Decodes the fields of one command variant, the tag already read.
#[verifier::rlimit(100)]
fn decode_disconnect(b: &Vec<u8>) -> (r: Option<crate::types::InternalServicePayload>)
    requires
        b@.len() >= 1,
        b@.subrange(0, 1) == seq![3u8],
    ensures
        r matches Some(p) ==> b@ == spec_encode_payload(p),
        (r is Some) == spec_disconnect_parses(b@, 1),
{
    let end = b.len();
    let p0: usize = 1;
    match read_u128(b, p0) {
    Some((uuid, p1)) => match read_u64(b, p1) {
        Some((cid, p2)) => {
            if p2 == end {
                let out = crate::types::InternalServicePayload::Disconnect { uuid, cid };
                proof {
                    lemma_subrange_split(b@, 0, p0 as int, p1 as int);
                    lemma_subrange_split(b@, 0, p1 as int, p2 as int);
                    assert(b@ =~= b@.subrange(0, b@.len() as int));
                    assert(b@ == spec_encode_payload(out));
                }
                Some(out)
            } else {
                None
            }
        },
        None => None,
    },
    None => None,
}
}

/// Decodes the fields of one command variant, the tag already read.
#[verifier::rlimit(100)]
fn decode_send_file(b: &Vec<u8>) -> (r: Option<crate::types::InternalServicePayload>)
    requires
        b@.len() >= 1,
        b@.subrange(0, 1) == seq![4u8],
    ensures
        r matches Some(p) ==> b@ == spec_encode_payload(p),
        (r is Some) == spec_send_file_parses(b@, 1),
{
    let end = b.len();
    let p0: usize = 1;
    match read_u128(b, p0) {
    Some((uuid, p1)) => match read_string(b, p1) {
        Some((source, p2)) => match read_u64(b, p2) {
            Some((cid, p3)) => match read_u64(b, p3) {
                Some((chunk_size, p4)) => match read_transfer_type(b, p4) {
                    Some((transfer_type, p5)) => {
                        if p5 == end {
                            let out = crate::types::InternalServicePayload::SendFile {
                                uuid,
                                source,
                                cid,
                                chunk_size,
                                transfer_type,
                            };
                            proof {
                                lemma_subrange_split(b@, 0, p0 as int, p1 as int);
                                lemma_subrange_split(b@, 0, p1 as int, p2 as int);
                                lemma_subrange_split(b@, 0, p2 as int, p3 as int);
                                lemma_subrange_split(b@, 0, p3 as int, p4 as int);
                                lemma_subrange_split(b@, 0, p4 as int, p5 as int);
                                assert(b@ =~= b@.subrange(0, b@.len() as int));
                                assert(b@ == spec_encode_payload(out));
                            }
                            Some(out)
                        } else {
                            None
                        }
                    },
                    None => None,
                },
                None => None,
            },
            None => None,
        },
        None => None,
    },
    None => None,
}
}

/// Decodes the fields of one command variant, the tag already read.
#[verifier::rlimit(100)]
fn decode_download_file(b: &Vec<u8>) -> (r: Option<crate::types::InternalServicePayload>)
    requires
        b@.len() >= 1,
        b@.subrange(0, 1) == seq![5u8],
    ensures
        r matches Some(p) ==> b@ == spec_encode_payload(p),
        (r is Some) == spec_download_file_parses(b@, 1),
{
    let end = b.len();
    let p0: usize = 1;
    match read_string(b, p0) {
    Some((virtual_path, p1)) => match read_u8(b, p1) {
        Some((transfer_security_level, p2)) => match read_bool(b, p2) {
            Some((delete_on_pull, p3)) => match read_u64(b, p3) {
                Some((cid, p4)) => match read_u128(b, p4) {
                    Some((uuid, p5)) => {
                        if p5 == end {
                            let out = crate::types::InternalServicePayload::DownloadFile {
                                virtual_path,
                                transfer_security_level,
                                delete_on_pull,
                                cid,
                                uuid,
                            };
                            proof {
                                lemma_subrange_split(b@, 0, p0 as int, p1 as int);
                                lemma_subrange_split(b@, 0, p1 as int, p2 as int);
                                lemma_subrange_split(b@, 0, p2 as int, p3 as int);
                                lemma_subrange_split(b@, 0, p3 as int, p4 as int);
                                lemma_subrange_split(b@, 0, p4 as int, p5 as int);
                                assert(b@ =~= b@.subrange(0, b@.len() as int));
                                assert(b@ == spec_encode_payload(out));
                            }
                            Some(out)
                        } else {
                            None
                        }
                    },
                    None => None,
                },
                None => None,
            },
            None => None,
        },
        None => None,
    },
    None => None,
}
}

/// Decodes the fields of one command variant, the tag already read.
#[verifier::rlimit(100)]
fn decode_start_group(b: &Vec<u8>) -> (r: Option<crate::types::InternalServicePayload>)
    requires
        b@.len() >= 1,
        b@.subrange(0, 1) == seq![6u8],
    ensures
        r matches Some(p) ==> b@ == spec_encode_payload(p),
        (r is Some) == spec_start_group_parses(b@, 1),
{
    let end = b.len();
    let p0: usize = 1;
    match read_opt_user_list(b, p0) {
    Some((initial_users_to_invite, p1)) => match read_u64(b, p1) {
        Some((cid, p2)) => match read_u128(b, p2) {
            Some((uuid, p3)) => {
                if p3 == end {
                    let out = crate::types::InternalServicePayload::StartGroup {
                        initial_users_to_invite,
                        cid,
                        uuid,
                    };
                    proof {
                        lemma_subrange_split(b@, 0, p0 as int, p1 as int);
                        lemma_subrange_split(b@, 0, p1 as int, p2 as int);
                        lemma_subrange_split(b@, 0, p2 as int, p3 as int);
                        assert(b@ =~= b@.subrange(0, b@.len() as int));
                        assert(b@ == spec_encode_payload(out));
                    }
                    Some(out)
                } else {
                    None
                }
            },
            None => None,
        },
        None => None,
    },
    None => None,
}
}

/// Decodes one client command from a whole frame payload. A successful
/// decode pins the input: the bytes are exactly the encoding of the result.
#[verifier::rlimit(100)]
pub fn decode_payload(b: &Vec<u8>) -> (r: Option<crate::types::InternalServicePayload>)
    ensures
        r matches Some(p) ==> b@ == spec_encode_payload(p),
        (r is Some) == spec_payload_parses(b@),
{
    let end = b.len();
    match read_u8(b, 0) {
        Some((0, p0)) => decode_connect(b),
        Some((1, p0)) => decode_register(b),
        Some((2, p0)) => decode_message(b),
        Some((3, p0)) => decode_disconnect(b),
        Some((4, p0)) => decode_send_file(b),
        Some((5, p0)) => decode_download_file(b),
        Some((6, p0)) => decode_start_group(b),
        _ => None,
    }
}

/// Decodes one response from a whole frame payload. A successful decode
/// pins the input: the bytes are exactly the encoding of the result.
#[verifier::rlimit(100)]
pub fn decode_response(b: &Vec<u8>) -> (r: Option<crate::types::InternalServiceResponse>)
    ensures
        r matches Some(resp) ==> b@ == spec_encode_response(resp),
        (r is Some) == spec_response_parses(b@),
{
    let end = b.len();
    match read_u8(b, 0) {
        Some((0, p0)) => match read_u64(b, p0) {
            Some((cid, p1)) => {
                if p1 == end {
                    let out = crate::types::InternalServiceResponse::ConnectSuccess { cid };
                    proof {
                        lemma_subrange_split(b@, 0, p0 as int, p1 as int);
                        assert(b@ =~= b@.subrange(0, b@.len() as int));
                        assert(b@ == spec_encode_response(out));
                    }
                    Some(out)
                } else {
                    None
                }
            },
            None => None,
        },
        Some((1, p0)) => match read_string(b, p0) {
            Some((message, p1)) => {
                if p1 == end {
                    let out = crate::types::InternalServiceResponse::ConnectionFailure { message };
                    proof {
                        lemma_subrange_split(b@, 0, p0 as int, p1 as int);
                        assert(b@ =~= b@.subrange(0, b@.len() as int));
                        assert(b@ == spec_encode_response(out));
                    }
                    Some(out)
                } else {
                    None
                }
            },
            None => None,
        },
        Some((2, p0)) => match read_u128(b, p0) {
            Some((id, p1)) => {
                if p1 == end {
                    let out = crate::types::InternalServiceResponse::RegisterSuccess { id };
                    proof {
                        lemma_subrange_split(b@, 0, p0 as int, p1 as int);
                        assert(b@ =~= b@.subrange(0, b@.len() as int));
                        assert(b@ == spec_encode_response(out));
                    }
                    Some(out)
                } else {
                    None
                }
            },
            None => None,
        },
        Some((3, p0)) => match read_string(b, p0) {
            Some((message, p1)) => {
                if p1 == end {
                    let out = crate::types::InternalServiceResponse::RegisterFailure { message };
                    proof {
                        lemma_subrange_split(b@, 0, p0 as int, p1 as int);
                        assert(b@ =~= b@.subrange(0, b@.len() as int));
                        assert(b@ == spec_encode_response(out));
                    }
                    Some(out)
                } else {
                    None
                }
            },
            None => None,
        },
        Some((4, p0)) => match read_u128(b, p0) {
            Some((id, p1)) => {
                if p1 == end {
                    let out = crate::types::InternalServiceResponse::ServiceConnectionAccepted {
                        id,
                    };
                    proof {
                        lemma_subrange_split(b@, 0, p0 as int, p1 as int);
                        assert(b@ =~= b@.subrange(0, b@.len() as int));
                        assert(b@ == spec_encode_response(out));
                    }
                    Some(out)
                } else {
                    None
                }
            },
            None => None,
        },
        Some((5, p0)) => match read_u64(b, p0) {
            Some((cid, p1)) => {
                if p1 == end {
                    let out = crate::types::InternalServiceResponse::MessageSent { cid };
                    proof {
                        lemma_subrange_split(b@, 0, p0 as int, p1 as int);
                        assert(b@ =~= b@.subrange(0, b@.len() as int));
                        assert(b@ == spec_encode_response(out));
                    }
                    Some(out)
                } else {
                    None
                }
            },
            None => None,
        },
        Some((6, p0)) => match read_u64(b, p0) {
            Some((cid, p1)) => match read_string(b, p1) {
                Some((message, p2)) => {
                    if p2 == end {
                        let out = crate::types::InternalServiceResponse::MessageSendError {
                            cid,
                            message,
                        };
                        proof {
                            lemma_subrange_split(b@, 0, p0 as int, p1 as int);
                            lemma_subrange_split(b@, 0, p1 as int, p2 as int);
                            assert(b@ =~= b@.subrange(0, b@.len() as int));
                            assert(b@ == spec_encode_response(out));
                        }
                        Some(out)
                    } else {
                        None
                    }
                },
                None => None,
            },
            None => None,
        },
        Some((7, p0)) => match read_bytes(b, p0) {
            Some((message, p1)) => match read_u64(b, p1) {
                Some((cid, p2)) => match read_u64(b, p2) {
                    Some((peer_cid, p3)) => {
                        if p3 == end {
                            let out = crate::types::InternalServiceResponse::MessageReceived {
                                message,
                                cid,
                                peer_cid,
                            };
                            proof {
                                lemma_subrange_split(b@, 0, p0 as int, p1 as int);
                                lemma_subrange_split(b@, 0, p1 as int, p2 as int);
                                lemma_subrange_split(b@, 0, p2 as int, p3 as int);
                                assert(b@ =~= b@.subrange(0, b@.len() as int));
                                assert(b@ == spec_encode_response(out));
                            }
                            Some(out)
                        } else {
                            None
                        }
                    },
                    None => None,
                },
                None => None,
            },
            None => None,
        },
        Some((8, p0)) => match read_u64(b, p0) {
            Some((cid, p1)) => {
                if p1 == end {
                    let out = crate::types::InternalServiceResponse::DisconnectSuccess { cid };
                    proof {
                        lemma_subrange_split(b@, 0, p0 as int, p1 as int);
                        assert(b@ =~= b@.subrange(0, b@.len() as int));
                        assert(b@ == spec_encode_response(out));
                    }
                    Some(out)
                } else {
                    None
                }
            },
            None => None,
        },
        Some((9, p0)) => match read_u64(b, p0) {
            Some((cid, p1)) => match read_string(b, p1) {
                Some((message, p2)) => {
                    if p2 == end {
                        let out = crate::types::InternalServiceResponse::DisconnectFailure {
                            cid,
                            message,
                        };
                        proof {
                            lemma_subrange_split(b@, 0, p0 as int, p1 as int);
                            lemma_subrange_split(b@, 0, p1 as int, p2 as int);
                            assert(b@ =~= b@.subrange(0, b@.len() as int));
                            assert(b@ == spec_encode_response(out));
                        }
                        Some(out)
                    } else {
                        None
                    }
                },
                None => None,
            },
            None => None,
        },
        Some((10, p0)) => match read_u64(b, p0) {
            Some((cid, p1)) => {
                if p1 == end {
                    let out = crate::types::InternalServiceResponse::SendFileSuccess { cid };
                    proof {
                        lemma_subrange_split(b@, 0, p0 as int, p1 as int);
                        assert(b@ =~= b@.subrange(0, b@.len() as int));
                        assert(b@ == spec_encode_response(out));
                    }
                    Some(out)
                } else {
                    None
                }
            },
            None => None,
        },
        Some((11, p0)) => match read_u64(b, p0) {
            Some((cid, p1)) => match read_string(b, p1) {
                Some((message, p2)) => {
                    if p2 == end {
                        let out = crate::types::InternalServiceResponse::SendFileFailure {
                            cid,
                            message,
                        };
                        proof {
                            lemma_subrange_split(b@, 0, p0 as int, p1 as int);
                            lemma_subrange_split(b@, 0, p1 as int, p2 as int);
                            assert(b@ =~= b@.subrange(0, b@.len() as int));
                            assert(b@ == spec_encode_response(out));
                        }
                        Some(out)
                    } else {
                        None
                    }
                },
                None => None,
            },
            None => None,
        },
        _ => None,
    }
}

} // verus!
