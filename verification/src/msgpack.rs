//! Byte-level readers for the length/type-prefixed binary message format the
//! editor speaks.
//!
//! Every reader takes the raw buffer and a position, and returns the decoded
//! value together with the position of the first byte after it, or `None` when
//! the buffer does not hold a well-formed value of the requested kind at that
//! position. Each reader is specified against a spec-level description of the
//! same grammar.

use vstd::prelude::*;
use vstd::string::StringSliceAdditionalSpecFns;

verus! {

broadcast use vstd::slice::axiom_spec_len;

/// `256^n`, the number of values of an `n`-byte big-endian field.
pub open spec fn pow256(n: nat) -> nat
    decreases n,
{
    if n == 0 {
        1
    } else {
        256 * pow256((n - 1) as nat)
    }
}

/// The value of the `n`-byte big-endian field at `pos`.
pub open spec fn be_val(bytes: Seq<u8>, pos: int, n: nat) -> nat
    decreases n,
{
    if n == 0 {
        0
    } else {
        (be_val(bytes, pos, (n - 1) as nat) * 256 + bytes[pos + n - 1]) as nat
    }
}

/// A byte slice's length fits the machine's address space.
pub proof fn lemma_len_fits(bytes: &[u8])
    ensures
        bytes@.len() <= usize::MAX,
{
    assert(vstd::slice::spec_slice_len(bytes) == bytes@.len());
}

/// The values of [`pow256`] that the readers need, unfolded.
pub proof fn lemma_pow256_vals()
    ensures
        pow256(1) == 0x100,
        pow256(2) == 0x1_0000,
        pow256(4) == 0x1_0000_0000,
        pow256(8) == 0x1_0000_0000_0000_0000,
{
    assert(pow256(0) == 1);
    assert(pow256(1) == 0x100);
    assert(pow256(2) == 0x1_0000);
    assert(pow256(3) == 0x100_0000);
    assert(pow256(4) == 0x1_0000_0000);
    assert(pow256(5) == 0x100_0000_0000);
    assert(pow256(6) == 0x1_0000_0000_0000);
    assert(pow256(7) == 0x100_0000_0000_0000);
    assert(pow256(8) == 0x1_0000_0000_0000_0000);
}

pub proof fn lemma_be_val_bound(bytes: Seq<u8>, pos: int, n: nat)
    requires
        forall|i: int| pos <= i < pos + n ==> 0 <= #[trigger] bytes[i] <= 255,
    ensures
        be_val(bytes, pos, n) < pow256(n),
    decreases n,
{
    if n > 0 {
        lemma_be_val_bound(bytes, pos, (n - 1) as nat);
    }
}

/// Reads the `n`-byte big-endian field at `pos`.
fn read_be(bytes: &[u8], pos: usize, n: usize) -> (v: u64)
    requires
        n <= 8,
        pos + n <= bytes@.len(),
    ensures
        v == be_val(bytes@, pos as int, n as nat),
{
    let l = bytes.len();
    let mut v: u64 = 0;
    let mut i: usize = 0;
    while i < n
        invariant
            i <= n <= 8,
            pos + n <= l == bytes@.len(),
            v == be_val(bytes@, pos as int, i as nat),
            v < pow256(i as nat),
        decreases n - i,
    {
        proof {
            lemma_pow256_vals();
            assert(pow256(i as nat) * 256 == pow256((i + 1) as nat));
            assert(pow256((i + 1) as nat) <= pow256(8)) by {
                lemma_pow256_le((i + 1) as nat, 8);
            }
        }
        v = v * 256 + (bytes[pos + i] as u64);
        i = i + 1;
    }
    v
}

proof fn lemma_pow256_le(m: nat, n: nat)
    requires
        m <= n,
    ensures
        pow256(m) <= pow256(n),
    decreases n,
{
    if m < n {
        lemma_pow256_le(m, (n - 1) as nat);
    }
}

/// The `n`-byte value at `pos` read as a two's-complement signed number.
pub open spec fn as_signed(v: nat, n: nat) -> int {
    if v >= pow256(n) / 2 {
        v - pow256(n)
    } else {
        v as int
    }
}

/// The integer starting at `pos`, under any of the format's ten integer
/// encodings, with the position after it.
pub open spec fn spec_read_int(bytes: Seq<u8>, pos: int) -> Option<(int, int)> {
    if pos < 0 || pos >= bytes.len() {
        None
    } else {
        let m = bytes[pos];
        if m < 0x80 {  // positive fixint
            Some((m as int, pos + 1))
        } else if m >= 0xe0 {  // negative fixint
            Some((m - 0x100, pos + 1))
        } else if m == 0xcc && pos + 2 <= bytes.len() {  // u8
            Some((be_val(bytes, pos + 1, 1) as int, pos + 2))
        } else if m == 0xcd && pos + 3 <= bytes.len() {  // u16
            Some((be_val(bytes, pos + 1, 2) as int, pos + 3))
        } else if m == 0xce && pos + 5 <= bytes.len() {  // u32
            Some((be_val(bytes, pos + 1, 4) as int, pos + 5))
        } else if m == 0xcf && pos + 9 <= bytes.len() {  // u64
            Some((be_val(bytes, pos + 1, 8) as int, pos + 9))
        } else if m == 0xd0 && pos + 2 <= bytes.len() {  // i8
            Some((as_signed(be_val(bytes, pos + 1, 1), 1), pos + 2))
        } else if m == 0xd1 && pos + 3 <= bytes.len() {  // i16
            Some((as_signed(be_val(bytes, pos + 1, 2), 2), pos + 3))
        } else if m == 0xd2 && pos + 5 <= bytes.len() {  // i32
            Some((as_signed(be_val(bytes, pos + 1, 4), 4), pos + 5))
        } else if m == 0xd3 && pos + 9 <= bytes.len() {  // i64
            Some((as_signed(be_val(bytes, pos + 1, 8), 8), pos + 9))
        } else {
            None
        }
    }
}

/// The integer at `pos` when it is in range for a `u64`.
pub open spec fn spec_read_u64(bytes: Seq<u8>, pos: int) -> Option<(u64, int)> {
    match spec_read_int(bytes, pos) {
        Some((v, p)) => if 0 <= v <= u64::MAX {
            Some((v as u64, p))
        } else {
            None
        },
        None => None,
    }
}

/// The integer at `pos` when it is in range for an `i64`.
pub open spec fn spec_read_i64(bytes: Seq<u8>, pos: int) -> Option<(i64, int)> {
    match spec_read_int(bytes, pos) {
        Some((v, p)) => if i64::MIN <= v <= i64::MAX {
            Some((v as i64, p))
        } else {
            None
        },
        None => None,
    }
}

/// Reads an unsigned integer under any of the integer encodings; fails on a
/// negative value.
#[verifier::rlimit(50)]
pub fn read_u64(bytes: &[u8], pos: usize) -> (r: Option<(u64, usize)>)
    ensures
        match spec_read_u64(bytes@, pos as int) {
            Some((v, p)) => r == Some((v, p as usize)),
            None => r is None,
        },
        spec_read_u64(bytes@, pos as int) matches Some((v, p)) ==> pos < p <= bytes@.len(),
{
    proof {
        lemma_pow256_vals();
    }
    if pos >= bytes.len() {
        return None;
    }
    let m = bytes[pos];
    let rem = bytes.len() - pos;
    if m < 0x80 {
        Some((m as u64, pos + 1))
    } else if m >= 0xe0 {
        None
    } else if m == 0xcc && rem >= 2 {
        Some((read_be(bytes, pos + 1, 1), pos + 2))
    } else if m == 0xcd && rem >= 3 {
        Some((read_be(bytes, pos + 1, 2), pos + 3))
    } else if m == 0xce && rem >= 5 {
        Some((read_be(bytes, pos + 1, 4), pos + 5))
    } else if m == 0xcf && rem >= 9 {
        proof {
            lemma_be_val_bound(bytes@, pos + 1, 8);
        }
        Some((read_be(bytes, pos + 1, 8), pos + 9))
    } else if m == 0xd0 && rem >= 2 {
        let v = read_be(bytes, pos + 1, 1);
        proof {
            lemma_be_val_bound(bytes@, pos + 1, 1);
        }
        if v < 0x80 {
            Some((v, pos + 2))
        } else {
            None
        }
    } else if m == 0xd1 && rem >= 3 {
        let v = read_be(bytes, pos + 1, 2);
        proof {
            lemma_be_val_bound(bytes@, pos + 1, 2);
        }
        if v < 0x8000 {
            Some((v, pos + 3))
        } else {
            None
        }
    } else if m == 0xd2 && rem >= 5 {
        let v = read_be(bytes, pos + 1, 4);
        proof {
            lemma_be_val_bound(bytes@, pos + 1, 4);
        }
        if v < 0x8000_0000 {
            Some((v, pos + 5))
        } else {
            None
        }
    } else if m == 0xd3 && rem >= 9 {
        let v = read_be(bytes, pos + 1, 8);
        proof {
            lemma_be_val_bound(bytes@, pos + 1, 8);
        }
        if v < 0x8000_0000_0000_0000 {
            Some((v, pos + 9))
        } else {
            None
        }
    } else {
        None
    }
}

/// Reads a signed integer under any of the integer encodings; fails on a
/// value beyond the `i64` range.
#[verifier::rlimit(50)]
pub fn read_i64(bytes: &[u8], pos: usize) -> (r: Option<(i64, usize)>)
    ensures
        match spec_read_i64(bytes@, pos as int) {
            Some((v, p)) => r == Some((v, p as usize)),
            None => r is None,
        },
        spec_read_i64(bytes@, pos as int) matches Some((v, p)) ==> pos < p <= bytes@.len(),
{
    proof {
        lemma_pow256_vals();
    }
    if pos >= bytes.len() {
        return None;
    }
    let m = bytes[pos];
    let rem = bytes.len() - pos;
    if m < 0x80 {
        Some((m as i64, pos + 1))
    } else if m >= 0xe0 {
        Some(((m as i64) - 0x100, pos + 1))
    } else if m == 0xcc && rem >= 2 {
        proof {
            lemma_be_val_bound(bytes@, pos + 1, 1);
        }
        Some((read_be(bytes, pos + 1, 1) as i64, pos + 2))
    } else if m == 0xcd && rem >= 3 {
        proof {
            lemma_be_val_bound(bytes@, pos + 1, 2);
        }
        Some((read_be(bytes, pos + 1, 2) as i64, pos + 3))
    } else if m == 0xce && rem >= 5 {
        proof {
            lemma_be_val_bound(bytes@, pos + 1, 4);
        }
        Some((read_be(bytes, pos + 1, 4) as i64, pos + 5))
    } else if m == 0xcf && rem >= 9 {
        let v = read_be(bytes, pos + 1, 8);
        proof {
            lemma_be_val_bound(bytes@, pos + 1, 8);
        }
        if v <= 0x7FFF_FFFF_FFFF_FFFF {
            Some((v as i64, pos + 9))
        } else {
            None
        }
    } else if m == 0xd0 && rem >= 2 {
        let v = read_be(bytes, pos + 1, 1);
        proof {
            lemma_be_val_bound(bytes@, pos + 1, 1);
        }
        if v < 0x80 {
            Some((v as i64, pos + 2))
        } else {
            Some(((v as i64) - 0x100, pos + 2))
        }
    } else if m == 0xd1 && rem >= 3 {
        let v = read_be(bytes, pos + 1, 2);
        proof {
            lemma_be_val_bound(bytes@, pos + 1, 2);
        }
        if v < 0x8000 {
            Some((v as i64, pos + 3))
        } else {
            Some(((v as i64) - 0x1_0000, pos + 3))
        }
    } else if m == 0xd2 && rem >= 5 {
        let v = read_be(bytes, pos + 1, 4);
        proof {
            lemma_be_val_bound(bytes@, pos + 1, 4);
        }
        if v < 0x8000_0000 {
            Some((v as i64, pos + 5))
        } else {
            Some(((v as i64) - 0x1_0000_0000, pos + 5))
        }
    } else if m == 0xd3 && rem >= 9 {
        let v = read_be(bytes, pos + 1, 8);
        proof {
            lemma_be_val_bound(bytes@, pos + 1, 8);
        }
        if v < 0x8000_0000_0000_0000 {
            Some((v as i64, pos + 9))
        } else {
            let mag = v - 0x8000_0000_0000_0000;
            Some(((mag as i64) + (-0x7FFF_FFFF_FFFF_FFFF - 1), pos + 9))
        }
    } else {
        None
    }
}

/// The length of the array whose header is at `pos`, with the position of its
/// first element.
pub open spec fn spec_read_array_len(bytes: Seq<u8>, pos: int) -> Option<(nat, int)> {
    if pos < 0 || pos >= bytes.len() {
        None
    } else {
        let m = bytes[pos];
        if 0x90 <= m <= 0x9f {  // fixarray
            Some(((m - 0x90) as nat, pos + 1))
        } else if m == 0xdc && pos + 3 <= bytes.len() {  // array 16
            Some((be_val(bytes, pos + 1, 2), pos + 3))
        } else if m == 0xdd && pos + 5 <= bytes.len() {  // array 32
            Some((be_val(bytes, pos + 1, 4), pos + 5))
        } else {
            None
        }
    }
}

/// Reads an array header, returning the declared element count.
pub fn read_array_len(bytes: &[u8], pos: usize) -> (r: Option<(usize, usize)>)
    ensures
        match spec_read_array_len(bytes@, pos as int) {
            Some((n, p)) => r == Some((n as usize, p as usize)),
            None => r is None,
        },
        spec_read_array_len(bytes@, pos as int) matches Some((n, p)) ==> n <= 0xFFFF_FFFF && pos
            < p <= bytes@.len(),
{
    proof {
        lemma_pow256_vals();
    }
    if pos >= bytes.len() {
        return None;
    }
    let m = bytes[pos];
    let rem = bytes.len() - pos;
    if 0x90 <= m && m <= 0x9f {
        Some(((m - 0x90) as usize, pos + 1))
    } else if m == 0xdc && rem >= 3 {
        proof {
            lemma_be_val_bound(bytes@, pos + 1, 2);
        }
        Some((read_be(bytes, pos + 1, 2) as usize, pos + 3))
    } else if m == 0xdd && rem >= 5 {
        proof {
            lemma_be_val_bound(bytes@, pos + 1, 4);
        }
        Some((read_be(bytes, pos + 1, 4) as usize, pos + 5))
    } else {
        None
    }
}

/// The number of pairs of the map whose header is at `pos`, with the position
/// of its first key.
pub open spec fn spec_read_map_len(bytes: Seq<u8>, pos: int) -> Option<(nat, int)> {
    if pos < 0 || pos >= bytes.len() {
        None
    } else {
        let m = bytes[pos];
        if 0x80 <= m <= 0x8f {  // fixmap
            Some(((m - 0x80) as nat, pos + 1))
        } else if m == 0xde && pos + 3 <= bytes.len() {  // map 16
            Some((be_val(bytes, pos + 1, 2), pos + 3))
        } else if m == 0xdf && pos + 5 <= bytes.len() {  // map 32
            Some((be_val(bytes, pos + 1, 4), pos + 5))
        } else {
            None
        }
    }
}

/// Reads a map header, returning the declared number of key/value pairs.
pub fn read_map_len(bytes: &[u8], pos: usize) -> (r: Option<(usize, usize)>)
    ensures
        match spec_read_map_len(bytes@, pos as int) {
            Some((n, p)) => r == Some((n as usize, p as usize)),
            None => r is None,
        },
        spec_read_map_len(bytes@, pos as int) matches Some((n, p)) ==> n <= 0xFFFF_FFFF && pos < p
            <= bytes@.len(),
{
    proof {
        lemma_pow256_vals();
    }
    if pos >= bytes.len() {
        return None;
    }
    let m = bytes[pos];
    let rem = bytes.len() - pos;
    if 0x80 <= m && m <= 0x8f {
        Some(((m - 0x80) as usize, pos + 1))
    } else if m == 0xde && rem >= 3 {
        proof {
            lemma_be_val_bound(bytes@, pos + 1, 2);
        }
        Some((read_be(bytes, pos + 1, 2) as usize, pos + 3))
    } else if m == 0xdf && rem >= 5 {
        proof {
            lemma_be_val_bound(bytes@, pos + 1, 4);
        }
        Some((read_be(bytes, pos + 1, 4) as usize, pos + 5))
    } else {
        None
    }
}

/// The boolean at `pos`.
pub open spec fn spec_read_bool(bytes: Seq<u8>, pos: int) -> Option<(bool, int)> {
    if 0 <= pos < bytes.len() {
        if bytes[pos] == 0xc2 {
            Some((false, pos + 1))
        } else if bytes[pos] == 0xc3 {
            Some((true, pos + 1))
        } else {
            None
        }
    } else {
        None
    }
}

/// Reads a boolean.
pub fn read_bool(bytes: &[u8], pos: usize) -> (r: Option<(bool, usize)>)
    ensures
        match spec_read_bool(bytes@, pos as int) {
            Some((b, p)) => r == Some((b, p as usize)),
            None => r is None,
        },
        spec_read_bool(bytes@, pos as int) matches Some((b, p)) ==> pos < p <= bytes@.len(),
{
    if pos >= bytes.len() {
        return None;
    }
    let m = bytes[pos];
    if m == 0xc2 {
        Some((false, pos + 1))
    } else if m == 0xc3 {
        Some((true, pos + 1))
    } else {
        None
    }
}

/// The raw bytes of the string whose header is at `pos`, with the position
/// after them.
pub open spec fn spec_read_str_bytes(bytes: Seq<u8>, pos: int) -> Option<(Seq<u8>, int)> {
    if pos < 0 || pos >= bytes.len() {
        None
    } else {
        let m = bytes[pos];
        let header: Option<(nat, int)> = if 0xa0 <= m <= 0xbf {  // fixstr
            Some(((m - 0xa0) as nat, pos + 1))
        } else if m == 0xd9 && pos + 2 <= bytes.len() {  // str 8
            Some((be_val(bytes, pos + 1, 1), pos + 2))
        } else if m == 0xda && pos + 3 <= bytes.len() {  // str 16
            Some((be_val(bytes, pos + 1, 2), pos + 3))
        } else if m == 0xdb && pos + 5 <= bytes.len() {  // str 32
            Some((be_val(bytes, pos + 1, 4), pos + 5))
        } else {
            None
        };
        match header {
            Some((len, body)) => if body + len <= bytes.len() {
                Some((bytes.subrange(body, body + len), body + len))
            } else {
                None
            },
            None => None,
        }
    }
}

/// The characters of the string at `pos`: its raw bytes decoded as UTF-8.
pub open spec fn spec_read_str(bytes: Seq<u8>, pos: int) -> Option<(Seq<char>, int)> {
    match spec_read_str_bytes(bytes, pos) {
        Some((raw, p)) => if vstd::utf8::valid_utf8(raw) {
            Some((vstd::utf8::decode_utf8(raw), p))
        } else {
            None
        },
        None => None,
    }
}

/// Relies on core::str::from_utf8: it accepts exactly the valid UTF-8 byte
/// sequences, viewing the accepted bytes as the characters they encode.
#[verifier::external_body]
fn try_from_utf8(v: &[u8]) -> (r: Option<&str>)
    ensures
        r matches Some(s) ==> vstd::utf8::valid_utf8(v@) && s.spec_bytes() == v@,
        r is None ==> !vstd::utf8::valid_utf8(v@),
{
    core::str::from_utf8(v).ok()
}

/// Reads a string, validating that its bytes are well-formed UTF-8.
pub fn read_string(bytes: &[u8], pos: usize) -> (r: Option<(String, usize)>)
    ensures
        match spec_read_str(bytes@, pos as int) {
            Some((chars, p)) => r matches Some((s, q)) && s@ == chars && q == p,
            None => r is None,
        },
        spec_read_str(bytes@, pos as int) matches Some((chars, p)) ==> pos < p <= bytes@.len(),
{
    proof {
        lemma_pow256_vals();
    }
    if pos >= bytes.len() {
        return None;
    }
    let m = bytes[pos];
    let rem = bytes.len() - pos;
    let header: Option<(usize, usize)> = if 0xa0 <= m && m <= 0xbf {
        Some(((m - 0xa0) as usize, pos + 1))
    } else if m == 0xd9 && rem >= 2 {
        proof {
            lemma_be_val_bound(bytes@, pos + 1, 1);
        }
        Some((read_be(bytes, pos + 1, 1) as usize, pos + 2))
    } else if m == 0xda && rem >= 3 {
        proof {
            lemma_be_val_bound(bytes@, pos + 1, 2);
        }
        Some((read_be(bytes, pos + 1, 2) as usize, pos + 3))
    } else if m == 0xdb && rem >= 5 {
        proof {
            lemma_be_val_bound(bytes@, pos + 1, 4);
        }
        Some((read_be(bytes, pos + 1, 4) as usize, pos + 5))
    } else {
        None
    };
    match header {
        Some((len, body)) => {
            if bytes.len() - body >= len {
                let raw: &[u8] = &bytes[body..body + len];
                match try_from_utf8(raw) {
                    Some(s) => {
                        proof {
                            broadcast use vstd::utf8::encode_utf8_decode_utf8;
                        }
                        Some((s.to_owned(), body + len))
                    },
                    None => None,
                }
            } else {
                None
            }
        },
        None => None,
    }
}


/// The position after the whole value at `pos`, whatever its kind, or `None`
/// when the buffer holds no well-formed value there. `fuel` bounds the
/// nesting depth; a well-formed value's depth is below its byte length, so
/// the readers pass the buffer length.
pub open spec fn spec_skip(bytes: Seq<u8>, pos: int, fuel: nat) -> Option<int>
    decreases fuel, 0nat,
{
    if fuel == 0 || pos < 0 || pos >= bytes.len() {
        None
    } else {
        let m = bytes[pos];
        if m < 0x80 || m >= 0xe0 || m == 0xc0 || m == 0xc2 || m == 0xc3 {
            // fixint, nil, bool
            Some(pos + 1)
        } else if 0x80 <= m <= 0x8f {  // fixmap
            match spec_skip_n(bytes, pos + 1, (m - 0x80) as nat, (fuel - 1) as nat) {
                Some(p) => spec_skip_n(bytes, p, (m - 0x80) as nat, (fuel - 1) as nat),
                None => None,
            }
        } else if 0x90 <= m <= 0x9f {  // fixarray
            spec_skip_n(bytes, pos + 1, (m - 0x90) as nat, (fuel - 1) as nat)
        } else if 0xa0 <= m <= 0xbf {  // fixstr
            if pos + 1 + (m - 0xa0) <= bytes.len() {
                Some(pos + 1 + (m - 0xa0))
            } else {
                None
            }
        } else if m == 0xc4 || m == 0xd9 {  // bin 8, str 8
            if pos + 2 <= bytes.len() && pos + 2 + be_val(bytes, pos + 1, 1) <= bytes.len() {
                Some(pos + 2 + be_val(bytes, pos + 1, 1))
            } else {
                None
            }
        } else if m == 0xc5 || m == 0xda {  // bin 16, str 16
            if pos + 3 <= bytes.len() && pos + 3 + be_val(bytes, pos + 1, 2) <= bytes.len() {
                Some(pos + 3 + be_val(bytes, pos + 1, 2))
            } else {
                None
            }
        } else if m == 0xc6 || m == 0xdb {  // bin 32, str 32
            if pos + 5 <= bytes.len() && pos + 5 + be_val(bytes, pos + 1, 4) <= bytes.len() {
                Some(pos + 5 + be_val(bytes, pos + 1, 4))
            } else {
                None
            }
        } else if m == 0xc7 {  // ext 8
            if pos + 3 <= bytes.len() && pos + 3 + be_val(bytes, pos + 1, 1) <= bytes.len() {
                Some(pos + 3 + be_val(bytes, pos + 1, 1))
            } else {
                None
            }
        } else if m == 0xc8 {  // ext 16
            if pos + 4 <= bytes.len() && pos + 4 + be_val(bytes, pos + 1, 2) <= bytes.len() {
                Some(pos + 4 + be_val(bytes, pos + 1, 2))
            } else {
                None
            }
        } else if m == 0xc9 {  // ext 32
            if pos + 6 <= bytes.len() && pos + 6 + be_val(bytes, pos + 1, 4) <= bytes.len() {
                Some(pos + 6 + be_val(bytes, pos + 1, 4))
            } else {
                None
            }
        } else if m == 0xca {  // f32
            if pos + 5 <= bytes.len() {
                Some(pos + 5)
            } else {
                None
            }
        } else if m == 0xcb || m == 0xcf || m == 0xd3 {  // f64, u64, i64
            if pos + 9 <= bytes.len() {
                Some(pos + 9)
            } else {
                None
            }
        } else if m == 0xcc || m == 0xd0 {  // u8, i8
            if pos + 2 <= bytes.len() {
                Some(pos + 2)
            } else {
                None
            }
        } else if m == 0xcd || m == 0xd1 {  // u16, i16
            if pos + 3 <= bytes.len() {
                Some(pos + 3)
            } else {
                None
            }
        } else if m == 0xce || m == 0xd2 {  // u32, i32
            if pos + 5 <= bytes.len() {
                Some(pos + 5)
            } else {
                None
            }
        } else if m == 0xd4 {  // fixext 1
            if pos + 3 <= bytes.len() {
                Some(pos + 3)
            } else {
                None
            }
        } else if m == 0xd5 {  // fixext 2
            if pos + 4 <= bytes.len() {
                Some(pos + 4)
            } else {
                None
            }
        } else if m == 0xd6 {  // fixext 4
            if pos + 6 <= bytes.len() {
                Some(pos + 6)
            } else {
                None
            }
        } else if m == 0xd7 {  // fixext 8
            if pos + 10 <= bytes.len() {
                Some(pos + 10)
            } else {
                None
            }
        } else if m == 0xd8 {  // fixext 16
            if pos + 18 <= bytes.len() {
                Some(pos + 18)
            } else {
                None
            }
        } else if m == 0xdc || m == 0xde {  // array 16, map 16
            if pos + 3 <= bytes.len() {
                let n = be_val(bytes, pos + 1, 2);
                if m == 0xdc {
                    spec_skip_n(bytes, pos + 3, n, (fuel - 1) as nat)
                } else {
                    match spec_skip_n(bytes, pos + 3, n, (fuel - 1) as nat) {
                        Some(p) => spec_skip_n(bytes, p, n, (fuel - 1) as nat),
                        None => None,
                    }
                }
            } else {
                None
            }
        } else if m == 0xdd || m == 0xdf {  // array 32, map 32
            if pos + 5 <= bytes.len() {
                let n = be_val(bytes, pos + 1, 4);
                if m == 0xdd {
                    spec_skip_n(bytes, pos + 5, n, (fuel - 1) as nat)
                } else {
                    match spec_skip_n(bytes, pos + 5, n, (fuel - 1) as nat) {
                        Some(p) => spec_skip_n(bytes, p, n, (fuel - 1) as nat),
                        None => None,
                    }
                }
            } else {
                None
            }
        } else {  // 0xc1: never a value
            None
        }
    }
}

/// The position after `n` consecutive whole values starting at `pos`.
pub open spec fn spec_skip_n(bytes: Seq<u8>, pos: int, n: nat, fuel: nat) -> Option<int>
    decreases fuel, n,
{
    if n == 0 {
        Some(pos)
    } else {
        match spec_skip(bytes, pos, fuel) {
            Some(p) => spec_skip_n(bytes, p, (n - 1) as nat, fuel),
            None => None,
        }
    }
}


/// Skips one whole value, whatever its kind.
#[verifier::rlimit(100)]
pub fn skip_value(bytes: &[u8], pos: usize, fuel: usize) -> (r: Option<usize>)
    ensures
        match spec_skip(bytes@, pos as int, fuel as nat) {
            Some(p) => r == Some(p as usize),
            None => r is None,
        },
        spec_skip(bytes@, pos as int, fuel as nat) matches Some(p) ==> pos < p <= bytes@.len(),
    decreases fuel, 0nat,
{
    proof {
        lemma_spec_skip_min_advance(bytes@, pos as int, fuel as nat);
    }
    proof {
        lemma_pow256_vals();
    }
    if fuel == 0 || pos >= bytes.len() {
        return None;
    }
    let m = bytes[pos];
    let rem = bytes.len() - pos;
    if m < 0x80 || m >= 0xe0 || m == 0xc0 || m == 0xc2 || m == 0xc3 {
        Some(pos + 1)
    } else if 0x80 <= m && m <= 0x8f {
        let n = (m - 0x80) as usize;
        match skip_n(bytes, pos + 1, n, fuel - 1) {
            Some(p) => {
                proof {
                    lemma_spec_skip_n_min_advance(bytes@, pos + 1, n as nat, (fuel - 1) as nat);
                }
                skip_n(bytes, p, n, fuel - 1)
            },
            None => None,
        }
    } else if 0x90 <= m && m <= 0x9f {
        skip_n(bytes, pos + 1, (m - 0x90) as usize, fuel - 1)
    } else if 0xa0 <= m && m <= 0xbf {
        let l = (m - 0xa0) as usize;
        if rem - 1 >= l {
            Some(pos + 1 + l)
        } else {
            None
        }
    } else if m == 0xc4 || m == 0xd9 {
        if rem >= 2 {
            proof {
                lemma_be_val_bound(bytes@, pos + 1, 1);
            }
            let l = read_be(bytes, pos + 1, 1);
            if l <= (rem - 2) as u64 {
                Some(pos + 2 + l as usize)
            } else {
                None
            }
        } else {
            None
        }
    } else if m == 0xc5 || m == 0xda {
        if rem >= 3 {
            proof {
                lemma_be_val_bound(bytes@, pos + 1, 2);
            }
            let l = read_be(bytes, pos + 1, 2);
            if l <= (rem - 3) as u64 {
                Some(pos + 3 + l as usize)
            } else {
                None
            }
        } else {
            None
        }
    } else if m == 0xc6 || m == 0xdb {
        if rem >= 5 {
            proof {
                lemma_be_val_bound(bytes@, pos + 1, 4);
            }
            let l = read_be(bytes, pos + 1, 4);
            if l <= (rem - 5) as u64 {
                Some(pos + 5 + l as usize)
            } else {
                None
            }
        } else {
            None
        }
    } else if m == 0xc7 {
        if rem >= 3 {
            proof {
                lemma_be_val_bound(bytes@, pos + 1, 1);
            }
            let l = read_be(bytes, pos + 1, 1);
            if l <= (rem - 3) as u64 {
                Some(pos + 3 + l as usize)
            } else {
                None
            }
        } else {
            None
        }
    } else if m == 0xc8 {
        if rem >= 4 {
            proof {
                lemma_be_val_bound(bytes@, pos + 1, 2);
            }
            let l = read_be(bytes, pos + 1, 2);
            if l <= (rem - 4) as u64 {
                Some(pos + 4 + l as usize)
            } else {
                None
            }
        } else {
            None
        }
    } else if m == 0xc9 {
        if rem >= 6 {
            proof {
                lemma_be_val_bound(bytes@, pos + 1, 4);
            }
            let l = read_be(bytes, pos + 1, 4);
            if l <= (rem - 6) as u64 {
                Some(pos + 6 + l as usize)
            } else {
                None
            }
        } else {
            None
        }
    } else if m == 0xca {
        if rem >= 5 {
            Some(pos + 5)
        } else {
            None
        }
    } else if m == 0xcb || m == 0xcf || m == 0xd3 {
        if rem >= 9 {
            Some(pos + 9)
        } else {
            None
        }
    } else if m == 0xcc || m == 0xd0 {
        if rem >= 2 {
            Some(pos + 2)
        } else {
            None
        }
    } else if m == 0xcd || m == 0xd1 {
        if rem >= 3 {
            Some(pos + 3)
        } else {
            None
        }
    } else if m == 0xce || m == 0xd2 {
        if rem >= 5 {
            Some(pos + 5)
        } else {
            None
        }
    } else if m == 0xd4 {
        if rem >= 3 {
            Some(pos + 3)
        } else {
            None
        }
    } else if m == 0xd5 {
        if rem >= 4 {
            Some(pos + 4)
        } else {
            None
        }
    } else if m == 0xd6 {
        if rem >= 6 {
            Some(pos + 6)
        } else {
            None
        }
    } else if m == 0xd7 {
        if rem >= 10 {
            Some(pos + 10)
        } else {
            None
        }
    } else if m == 0xd8 {
        if rem >= 18 {
            Some(pos + 18)
        } else {
            None
        }
    } else if m == 0xdc || m == 0xde {
        if rem >= 3 {
            proof {
                lemma_be_val_bound(bytes@, pos + 1, 2);
            }
            let n = read_be(bytes, pos + 1, 2) as usize;
            if m == 0xdc {
                skip_n(bytes, pos + 3, n, fuel - 1)
            } else {
                match skip_n(bytes, pos + 3, n, fuel - 1) {
                    Some(p) => {
                        proof {
                            lemma_spec_skip_n_min_advance(bytes@, pos + 3, n as nat, (fuel - 1) as nat);
                        }
                        skip_n(bytes, p, n, fuel - 1)
                    },
                    None => None,
                }
            }
        } else {
            None
        }
    } else if m == 0xdd || m == 0xdf {
        if rem >= 5 {
            proof {
                lemma_be_val_bound(bytes@, pos + 1, 4);
            }
            let n64 = read_be(bytes, pos + 1, 4);
            if n64 > usize::MAX as u64 {
                // An element count beyond the address space cannot describe a
                // well-formed buffer; each element takes at least one byte.
                proof {
                    lemma_spec_skip_n_min_len(bytes@, pos + 5, n64 as nat, (fuel - 1) as nat);
                }
                None
            } else {
                let n = n64 as usize;
                if m == 0xdd {
                    skip_n(bytes, pos + 5, n, fuel - 1)
                } else {
                    match skip_n(bytes, pos + 5, n, fuel - 1) {
                        Some(p) => {
                            proof {
                                lemma_spec_skip_n_min_advance(bytes@, pos + 5, n as nat, (fuel - 1) as nat);
                            }
                            skip_n(bytes, p, n, fuel - 1)
                        },
                        None => None,
                    }
                }
            }
        } else {
            None
        }
    } else {
        None
    }
}

/// Skipping more values than there are bytes left fails: each value takes
/// at least one byte.
proof fn lemma_spec_skip_n_min_len(bytes: Seq<u8>, pos: int, n: nat, fuel: nat)
    requires
        0 <= pos <= bytes.len(),
        n > bytes.len() - pos,
    ensures
        spec_skip_n(bytes, pos, n, fuel) is None,
    decreases n,
{
    match spec_skip(bytes, pos, fuel) {
        Some(p) => {
            lemma_spec_skip_min_advance(bytes, pos, fuel);
            lemma_spec_skip_n_min_len(bytes, p, (n - 1) as nat, fuel);
        },
        None => {},
    }
}

/// A skipped value takes at least one byte and ends inside the buffer.
proof fn lemma_spec_skip_min_advance(bytes: Seq<u8>, pos: int, fuel: nat)
    ensures
        spec_skip(bytes, pos, fuel) matches Some(p) ==> pos < p <= bytes.len(),
    decreases fuel, 0nat,
{
    if fuel > 0 && 0 <= pos < bytes.len() {
        let m = bytes[pos];
        if 0x80 <= m <= 0x8f || 0x90 <= m <= 0x9f {
            let n: nat = if 0x80 <= m <= 0x8f {
                (m - 0x80) as nat
            } else {
                (m - 0x90) as nat
            };
            lemma_spec_skip_n_min_advance(bytes, pos + 1, n, (fuel - 1) as nat);
            match spec_skip_n(bytes, pos + 1, n, (fuel - 1) as nat) {
                Some(p1) => {
                    lemma_spec_skip_n_min_advance(bytes, p1, n, (fuel - 1) as nat);
                },
                None => {},
            }
        } else if (m == 0xdc || m == 0xde) && pos + 3 <= bytes.len() {
            let n = be_val(bytes, pos + 1, 2);
            lemma_spec_skip_n_min_advance(bytes, pos + 3, n, (fuel - 1) as nat);
            match spec_skip_n(bytes, pos + 3, n, (fuel - 1) as nat) {
                Some(p1) => {
                    lemma_spec_skip_n_min_advance(bytes, p1, n, (fuel - 1) as nat);
                },
                None => {},
            }
        } else if (m == 0xdd || m == 0xdf) && pos + 5 <= bytes.len() {
            let n = be_val(bytes, pos + 1, 4);
            lemma_spec_skip_n_min_advance(bytes, pos + 5, n, (fuel - 1) as nat);
            match spec_skip_n(bytes, pos + 5, n, (fuel - 1) as nat) {
                Some(p1) => {
                    lemma_spec_skip_n_min_advance(bytes, p1, n, (fuel - 1) as nat);
                },
                None => {},
            }
        }
    }
}

/// Skipping values never moves backwards nor outside the buffer.
proof fn lemma_spec_skip_n_min_advance(bytes: Seq<u8>, pos: int, n: nat, fuel: nat)
    requires
        0 <= pos <= bytes.len(),
    ensures
        spec_skip_n(bytes, pos, n, fuel) matches Some(p) ==> pos <= p <= bytes.len(),
    decreases fuel, n,
{
    if n > 0 {
        match spec_skip(bytes, pos, fuel) {
            Some(p1) => {
                lemma_spec_skip_min_advance(bytes, pos, fuel);
                lemma_spec_skip_n_min_advance(bytes, p1, (n - 1) as nat, fuel);
            },
            None => {},
        }
    }
}

/// Skips `n` consecutive whole values.
pub fn skip_n(bytes: &[u8], pos: usize, n: usize, fuel: usize) -> (r: Option<usize>)
    requires
        pos <= bytes@.len(),
    ensures
        match spec_skip_n(bytes@, pos as int, n as nat, fuel as nat) {
            Some(p) => r == Some(p as usize),
            None => r is None,
        },
        spec_skip_n(bytes@, pos as int, n as nat, fuel as nat) matches Some(p) ==> pos <= p
            <= bytes@.len(),
    decreases fuel, n,
{
    proof {
        lemma_spec_skip_n_min_advance(bytes@, pos as int, n as nat, fuel as nat);
    }
    if n == 0 {
        Some(pos)
    } else {
        let n_bytes = bytes.len();
        match skip_value(bytes, pos, fuel) {
            Some(p) => {
                proof {
                    lemma_spec_skip_min_advance(bytes@, pos as int, fuel as nat);
                    assert(p as int <= n_bytes as int);
                }
                skip_n(bytes, p, n - 1, fuel)
            },
            None => None,
        }
    }
}

} // verus!
