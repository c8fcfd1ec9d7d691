//! Permissive decoding of the backend's statistics text.
//!
//! The backend reports statistics as a NUL-terminated byte string whose
//! contents it alone controls. The decoder keeps everything before the first
//! NUL and repairs it into text: every well-formed UTF-8 scalar encoding
//! decodes to its scalar, and every maximal ill-formed stretch — the longest
//! prefix that could still have grown into a well-formed encoding, at least
//! one byte — becomes a single Unicode replacement character. The decoder is
//! total: no byte sequence can make it fail.

use vstd::prelude::*;
use vstd::utf8::decode_first_codepoint;
use vstd::utf8::decode_first_scalar;
use vstd::utf8::decode_utf8;
use vstd::utf8::decode_utf8_first_scalar;
use vstd::utf8::encode_scalar;
use vstd::utf8::encode_utf8;
use vstd::utf8::encode_utf8_decode_utf8;
use vstd::utf8::encode_utf8_valid_utf8;
use vstd::utf8::is_continuation_byte;
use vstd::utf8::length_of_first_scalar;
use vstd::utf8::pop_first_scalar;
use vstd::utf8::valid_first_scalar;
use vstd::utf8::valid_utf8;

verus! {

/// The Unicode replacement character, substituted for each maximal
/// ill-formed stretch of bytes.
pub open spec fn replacement_char() -> char {
    '\u{fffd}'
}

/// True when `b1` may follow the lead byte `b0` in a well-formed encoding:
/// the continuation range, narrowed for the leads whose full range would
/// reach an overlong, surrogate or out-of-range codepoint.
pub open spec fn accepts_second(b0: u8, b1: u8) -> bool {
    if 0xc2 <= b0 <= 0xdf {
        is_continuation_byte(b1)
    } else if b0 == 0xe0 {
        0xa0 <= b1 <= 0xbf
    } else if 0xe1 <= b0 <= 0xec || 0xee <= b0 <= 0xef {
        is_continuation_byte(b1)
    } else if b0 == 0xed {
        0x80 <= b1 <= 0x9f
    } else if b0 == 0xf0 {
        0x90 <= b1 <= 0xbf
    } else if 0xf1 <= b0 <= 0xf3 {
        is_continuation_byte(b1)
    } else if b0 == 0xf4 {
        0x80 <= b1 <= 0x8f
    } else {
        false
    }
}

/// How many bytes one replacement character stands for at an ill-formed
/// position: the maximal prefix that could still have grown into a
/// well-formed encoding, and at least the first byte.
pub open spec fn ill_formed_len(bytes: Seq<u8>) -> int
    recommends
        bytes.len() > 0,
        !valid_first_scalar(bytes),
{
    if bytes.len() >= 2 && accepts_second(bytes[0], bytes[1]) {
        if 0xe0 <= bytes[0] && bytes.len() >= 3 && is_continuation_byte(bytes[2]) {
            3
        } else {
            2
        }
    } else {
        1
    }
}

/// The prefix of `s` that precedes its first NUL byte (all of `s` when it
/// holds none).
pub open spec fn nul_prefix(s: Seq<u8>) -> Seq<u8>
    decreases s.len(),
{
    if s.len() == 0 || s[0] == 0 {
        seq![]
    } else {
        seq![s[0]] + nul_prefix(s.drop_first())
    }
}

/// Lossy UTF-8 decoding: each well-formed scalar encoding decodes to its
/// scalar; each maximal ill-formed stretch, of [`ill_formed_len`] bytes,
/// becomes one [`replacement_char`].
pub open spec fn lossy_utf8(bytes: Seq<u8>) -> Seq<char>
    decreases bytes.len(),
{
    if bytes.len() == 0 {
        seq![]
    } else if valid_first_scalar(bytes) {
        seq![decode_first_scalar(bytes) as char] + lossy_utf8(pop_first_scalar(bytes))
    } else {
        seq![replacement_char()] + lossy_utf8(bytes.skip(ill_formed_len(bytes)))
    }
}

/// On a byte sequence that already is valid UTF-8, lossy decoding agrees
/// with exact decoding: nothing is replaced.
pub proof fn lemma_lossy_utf8_of_valid(bytes: Seq<u8>)
    requires
        valid_utf8(bytes),
    ensures
        lossy_utf8(bytes) == decode_utf8(bytes),
    decreases bytes.len(),
{
    if bytes.len() != 0 {
        lemma_pop_first_scalar_len(bytes);
        lemma_lossy_utf8_of_valid(pop_first_scalar(bytes));
    }
}

/// Bytes below 0x80 are valid UTF-8 and decode to themselves, one character
/// per byte.
pub proof fn lemma_ascii_utf8(s: Seq<u8>)
    requires
        forall|j: int| 0 <= j < s.len() ==> s[j] < 0x80,
    ensures
        valid_utf8(s),
        decode_utf8(s) == Seq::new(s.len(), |j: int| s[j] as char),
    decreases s.len(),
{
    if s.len() != 0 {
        let b = s[0];
        assert(b < 0x80 ==> (b & 0x7f) == b) by (bit_vector);
        assert(valid_first_scalar(s));
        assert(pop_first_scalar(s) =~= s.drop_first());
        lemma_ascii_utf8(s.drop_first());
        assert(decode_utf8(s) =~= Seq::new(s.len(), |j: int| s[j] as char));
    }
}

proof fn lemma_pop_first_scalar_len(bytes: Seq<u8>)
    requires
        valid_first_scalar(bytes),
    ensures
        1 <= length_of_first_scalar(bytes) <= bytes.len(),
        pop_first_scalar(bytes).len() == bytes.len() - length_of_first_scalar(bytes),
{
}

/// For a well-formed leading scalar encoding, the first
/// `length_of_first_scalar` bytes are exactly the encoding of the decoded
/// character.
proof fn lemma_first_scalar_encode(s: Seq<u8>)
    requires
        valid_first_scalar(s),
    ensures
        1 <= length_of_first_scalar(s) <= s.len(),
        encode_scalar((decode_first_scalar(s) as char) as u32) == s.subrange(
            0,
            length_of_first_scalar(s),
        ),
{
    let l = length_of_first_scalar(s);
    let t = s.subrange(0, l);
    assert(t.len() == l);
    assert(forall|j: int| 0 <= j < l ==> t[j] == s[j]);
    assert(valid_first_scalar(t));
    assert(decode_first_codepoint(t) == decode_first_codepoint(s));
    assert(length_of_first_scalar(t) == l);
    assert(pop_first_scalar(t) =~= Seq::<u8>::empty());
    assert(valid_utf8(pop_first_scalar(t)));
    assert(valid_utf8(t));
    decode_utf8_first_scalar(t);
    assert(vstd::utf8::take_first_scalar(t) =~= t);
}

/// Appending one character appends its scalar encoding.
proof fn lemma_encode_utf8_push(cs: Seq<char>, c: char)
    ensures
        encode_utf8(cs.push(c)) == encode_utf8(cs) + encode_scalar(c as u32),
    decreases cs.len(),
{
    if cs.len() == 0 {
        assert(cs.push(c)[0] == c);
        assert(cs.push(c).drop_first() =~= Seq::<char>::empty());
        assert(encode_utf8(Seq::<char>::empty()) == Seq::<u8>::empty());
        assert(encode_utf8(cs.push(c)) == encode_scalar(c as u32) + Seq::<u8>::empty());
        assert(encode_utf8(cs.push(c)) =~= encode_utf8(cs) + encode_scalar(c as u32));
    } else {
        lemma_encode_utf8_push(cs.drop_first(), c);
        assert(cs.push(c)[0] == cs[0]);
        assert(cs.push(c).drop_first() =~= cs.drop_first().push(c));
        assert(encode_utf8(cs.push(c)) =~= encode_utf8(cs) + encode_scalar(c as u32));
    }
}

fn is_cont_byte(b: u8) -> (r: bool)
    ensures
        r == is_continuation_byte(b),
{
    0x80 <= b && b <= 0xbf
}

/// Decides whether the bytes of `bytes` starting at `i` begin with a
/// well-formed scalar encoding; returns how many bytes it spans, or — when
/// ill formed — how many bytes the one replacement character stands for.
fn classify_scalar(bytes: &Vec<u8>, i: usize) -> (r: (bool, usize))
    requires
        i < bytes@.len(),
    ensures
        r.0 == valid_first_scalar(bytes@.skip(i as int)),
        r.0 ==> r.1 == length_of_first_scalar(bytes@.skip(i as int)),
        !r.0 ==> r.1 == ill_formed_len(bytes@.skip(i as int)),
        1 <= r.1,
        i + r.1 <= bytes@.len(),
{
    let ghost s = bytes@.skip(i as int);
    proof {
        assert(s.len() == bytes@.len() - i);
        assert(forall|k: int| 0 <= k < s.len() ==> s[k] == bytes@[i + k]);
    }
    let n: usize = bytes.len();
    let b0 = bytes[i];
    if b0 < 0x80 {
        proof {
            assert((b0 & 0x7f) as u32 <= 0x7f) by (bit_vector);
        }
        (true, 1)
    } else if b0 < 0xc2 {
        // A stray continuation byte, or a lead that can only reach an
        // overlong encoding: no well-formed encoding begins here.
        proof {
            if valid_first_scalar(s) {
                let c1 = s[1];
                assert((((b0 & 0x1f) as u32) << 6) | ((c1 & 0x3f) as u32) < 0x80) by (bit_vector)
                    requires
                        0xc0 <= b0 <= 0xc1,
                ;
            }
        }
        (false, 1)
    } else if b0 <= 0xdf {
        if n - i > 1 && is_cont_byte(bytes[i + 1]) {
            let b1 = bytes[i + 1];
            proof {
                assert((((b0 & 0x1f) as u32) << 6) | ((b1 & 0x3f) as u32) >= 0x80
                    && (((b0 & 0x1f) as u32) << 6) | ((b1 & 0x3f) as u32) <= 0x7ff) by (bit_vector)
                    requires
                        0xc2 <= b0 <= 0xdf,
                ;
            }
            (true, 2)
        } else {
            (false, 1)
        }
    } else if b0 <= 0xef {
        if n - i > 1 {
            let b1 = bytes[i + 1];
            let second_ok: bool = if b0 == 0xe0 {
                0xa0 <= b1 && b1 <= 0xbf
            } else if b0 == 0xed {
                0x80 <= b1 && b1 <= 0x9f
            } else {
                0x80 <= b1 && b1 <= 0xbf
            };
            if second_ok {
                if n - i > 2 && is_cont_byte(bytes[i + 2]) {
                    let b2 = bytes[i + 2];
                    proof {
                        if b0 == 0xe0 {
                            assert((((b0 & 0x0f) as u32) << 12) | (((b1 & 0x3f) as u32) << 6) | ((
                            b2 & 0x3f) as u32) >= 0x800 && (((b0 & 0x0f) as u32) << 12) | (((b1
                                & 0x3f) as u32) << 6) | ((b2 & 0x3f) as u32) < 0xd800)
                                by (bit_vector)
                                requires
                                    b0 == 0xe0,
                                    0xa0 <= b1 <= 0xbf,
                            ;
                        } else if b0 == 0xed {
                            assert((((b0 & 0x0f) as u32) << 12) | (((b1 & 0x3f) as u32) << 6) | ((
                            b2 & 0x3f) as u32) >= 0x800 && (((b0 & 0x0f) as u32) << 12) | (((b1
                                & 0x3f) as u32) << 6) | ((b2 & 0x3f) as u32) < 0xd800)
                                by (bit_vector)
                                requires
                                    b0 == 0xed,
                                    0x80 <= b1 <= 0x9f,
                            ;
                        } else {
                            assert((((b0 & 0x0f) as u32) << 12) | (((b1 & 0x3f) as u32) << 6) | ((
                            b2 & 0x3f) as u32) >= 0x800 && !(0xd800 <= (((b0 & 0x0f) as u32) << 12)
                                | (((b1 & 0x3f) as u32) << 6) | ((b2 & 0x3f) as u32) && (((b0
                                & 0x0f) as u32) << 12) | (((b1 & 0x3f) as u32) << 6) | ((b2
                                & 0x3f) as u32) <= 0xdfff)) by (bit_vector)
                                requires
                                    0xe1 <= b0 <= 0xef,
                                    b0 != 0xed,
                                    0x80 <= b1 <= 0xbf,
                            ;
                        }
                    }
                    (true, 3)
                } else {
                    (false, 2)
                }
            } else {
                proof {
                    if valid_first_scalar(s) {
                        let c1 = s[1];
                        let c2 = s[2];
                        if b0 == 0xe0 {
                            assert((((b0 & 0x0f) as u32) << 12) | (((c1 & 0x3f) as u32) << 6) | ((
                            c2 & 0x3f) as u32) < 0x800) by (bit_vector)
                                requires
                                    b0 == 0xe0,
                                    0x80 <= c1 <= 0x9f,
                            ;
                        } else if b0 == 0xed {
                            assert(0xd800 <= (((b0 & 0x0f) as u32) << 12) | (((c1
                                & 0x3f) as u32) << 6) | ((c2 & 0x3f) as u32) && (((b0
                                & 0x0f) as u32) << 12) | (((c1 & 0x3f) as u32) << 6) | ((c2
                                & 0x3f) as u32) <= 0xdfff) by (bit_vector)
                                requires
                                    b0 == 0xed,
                                    0xa0 <= c1 <= 0xbf,
                            ;
                        }
                    }
                }
                (false, 1)
            }
        } else {
            (false, 1)
        }
    } else if b0 <= 0xf7 {
        if n - i > 1 {
            let b1 = bytes[i + 1];
            let second_ok: bool = if b0 == 0xf0 {
                0x90 <= b1 && b1 <= 0xbf
            } else if b0 == 0xf4 {
                0x80 <= b1 && b1 <= 0x8f
            } else if b0 <= 0xf3 {
                0x80 <= b1 && b1 <= 0xbf
            } else {
                false
            };
            if second_ok {
                if n - i > 2 && is_cont_byte(bytes[i + 2]) {
                    if n - i > 3 && is_cont_byte(bytes[i + 3]) {
                        let b2 = bytes[i + 2];
                        let b3 = bytes[i + 3];
                        proof {
                            if b0 == 0xf0 {
                                assert((((b0 & 0x07) as u32) << 18) | (((b1 & 0x3f) as u32) << 12)
                                    | (((b2 & 0x3f) as u32) << 6) | ((b3 & 0x3f) as u32) >= 0x10000
                                    && (((b0 & 0x07) as u32) << 18) | (((b1 & 0x3f) as u32) << 12)
                                    | (((b2 & 0x3f) as u32) << 6) | ((b3 & 0x3f) as u32)
                                    <= 0x10ffff) by (bit_vector)
                                    requires
                                        b0 == 0xf0,
                                        0x90 <= b1 <= 0xbf,
                                ;
                            } else if b0 == 0xf4 {
                                assert((((b0 & 0x07) as u32) << 18) | (((b1 & 0x3f) as u32) << 12)
                                    | (((b2 & 0x3f) as u32) << 6) | ((b3 & 0x3f) as u32) >= 0x10000
                                    && (((b0 & 0x07) as u32) << 18) | (((b1 & 0x3f) as u32) << 12)
                                    | (((b2 & 0x3f) as u32) << 6) | ((b3 & 0x3f) as u32)
                                    <= 0x10ffff) by (bit_vector)
                                    requires
                                        b0 == 0xf4,
                                        0x80 <= b1 <= 0x8f,
                                ;
                            } else {
                                assert((((b0 & 0x07) as u32) << 18) | (((b1 & 0x3f) as u32) << 12)
                                    | (((b2 & 0x3f) as u32) << 6) | ((b3 & 0x3f) as u32) >= 0x10000
                                    && (((b0 & 0x07) as u32) << 18) | (((b1 & 0x3f) as u32) << 12)
                                    | (((b2 & 0x3f) as u32) << 6) | ((b3 & 0x3f) as u32)
                                    <= 0x10ffff) by (bit_vector)
                                    requires
                                        0xf1 <= b0 <= 0xf3,
                                ;
                            }
                        }
                        (true, 4)
                    } else {
                        (false, 3)
                    }
                } else {
                    (false, 2)
                }
            } else {
                proof {
                    if valid_first_scalar(s) {
                        let c1 = s[1];
                        let c2 = s[2];
                        let c3 = s[3];
                        if b0 == 0xf0 {
                            assert((((b0 & 0x07) as u32) << 18) | (((c1 & 0x3f) as u32) << 12) | ((
                            (c2 & 0x3f) as u32) << 6) | ((c3 & 0x3f) as u32) < 0x10000)
                                by (bit_vector)
                                requires
                                    b0 == 0xf0,
                                    0x80 <= c1 <= 0x8f,
                            ;
                        } else if b0 == 0xf4 {
                            assert((((b0 & 0x07) as u32) << 18) | (((c1 & 0x3f) as u32) << 12) | ((
                            (c2 & 0x3f) as u32) << 6) | ((c3 & 0x3f) as u32) > 0x10ffff)
                                by (bit_vector)
                                requires
                                    b0 == 0xf4,
                                    0x90 <= c1 <= 0xbf,
                            ;
                        } else if b0 >= 0xf5 {
                            assert((((b0 & 0x07) as u32) << 18) | (((c1 & 0x3f) as u32) << 12) | ((
                            (c2 & 0x3f) as u32) << 6) | ((c3 & 0x3f) as u32) > 0x10ffff)
                                by (bit_vector)
                                requires
                                    0xf5 <= b0 <= 0xf7,
                            ;
                        }
                    }
                }
                (false, 1)
            }
        } else {
            (false, 1)
        }
    } else {
        (false, 1)
    }
}

/// Repairs arbitrary bytes into a valid UTF-8 encoding of their lossy
/// decoding.
pub fn repair_utf8(bytes: &Vec<u8>) -> (out: Vec<u8>)
    ensures
        valid_utf8(out@),
        decode_utf8(out@) == lossy_utf8(bytes@),
{
    let n: usize = bytes.len();
    let mut out: Vec<u8> = Vec::new();
    let ghost mut cs = Seq::<char>::empty();
    let mut i: usize = 0;
    proof {
        assert(bytes@.skip(0) =~= bytes@);
        assert(out@ =~= encode_utf8(cs));
    }
    while i < n
        invariant
            i <= n,
            n == bytes@.len(),
            out@ == encode_utf8(cs),
            lossy_utf8(bytes@) == cs + lossy_utf8(bytes@.skip(i as int)),
        decreases n - i,
    {
        let ghost s = bytes@.skip(i as int);
        proof {
            assert(s.len() == n - i);
            assert(forall|k: int| 0 <= k < s.len() ==> s[k] == bytes@[i + k]);
        }
        let ghost cs0 = cs;
        let ghost out0 = out@;
        let (valid, len) = classify_scalar(bytes, i);
        if valid {
            out.push(bytes[i]);
            if len >= 2 {
                out.push(bytes[i + 1]);
            }
            if len >= 3 {
                out.push(bytes[i + 2]);
            }
            if len >= 4 {
                out.push(bytes[i + 3]);
            }
            proof {
                let c = decode_first_scalar(s) as char;
                lemma_first_scalar_encode(s);
                assert(out@ =~= out0 + s.subrange(0, len as int));
                cs = cs.push(c);
                lemma_encode_utf8_push(cs0, c);
                assert(out@ =~= encode_utf8(cs));
                assert(pop_first_scalar(s) =~= bytes@.skip(i + len));
                assert(cs0 + lossy_utf8(s) =~= cs + lossy_utf8(bytes@.skip(i + len)));
            }
            i = i + len;
        } else {
            out.push(0xef);
            out.push(0xbf);
            out.push(0xbd);
            proof {
                let c = replacement_char();
                assert(c as u32 == 0xfffd);
                assert(0xE0u8 | ((0xfffdu32 >> 12) & 0x0F) as u8 == 0xEFu8) by (bit_vector);
                assert(0x80u8 | ((0xfffdu32 >> 6) & 0x3F) as u8 == 0xBFu8) by (bit_vector);
                assert(0x80u8 | (0xfffdu32 & 0x3F) as u8 == 0xBDu8) by (bit_vector);
                assert(encode_scalar(c as u32) =~= seq![0xefu8, 0xbfu8, 0xbdu8]);
                assert(out@ =~= out0 + encode_scalar(c as u32));
                cs = cs.push(c);
                lemma_encode_utf8_push(cs0, c);
                assert(out@ =~= encode_utf8(cs));
                assert(s.skip(len as int) =~= bytes@.skip(i + len));
                assert(cs0 + lossy_utf8(s) =~= cs + lossy_utf8(bytes@.skip(i + len)));
            }
            i = i + len;
        }
    }
    proof {
        assert(bytes@.skip(n as int) =~= Seq::<u8>::empty());
        assert(cs + lossy_utf8(bytes@.skip(n as int)) =~= cs);
        broadcast use encode_utf8_valid_utf8, encode_utf8_decode_utf8;

        assert(valid_utf8(out@));
        assert(decode_utf8(out@) == cs);
    }
    out
}

/// Copies the bytes of `raw` that precede its first NUL.
pub fn take_until_nul(raw: &Vec<u8>) -> (out: Vec<u8>)
    ensures
        out@ == nul_prefix(raw@),
{
    let n: usize = raw.len();
    let mut out: Vec<u8> = Vec::new();
    let mut i: usize = 0;
    while i < n && raw[i] != 0
        invariant
            i <= n,
            n == raw@.len(),
            out@ == raw@.subrange(0, i as int),
            forall|j: int| 0 <= j < i ==> raw@[j] != 0,
        decreases n - i,
    {
        out.push(raw[i]);
        proof {
            assert(out@ =~= raw@.subrange(0, i + 1));
        }
        i = i + 1;
    }
    proof {
        lemma_nul_prefix_stops(raw@, i as int);
    }
    out
}

/// `nul_prefix` takes exactly the bytes up to the first NUL.
pub proof fn lemma_nul_prefix_stops(s: Seq<u8>, i: int)
    requires
        0 <= i <= s.len(),
        forall|j: int| 0 <= j < i ==> s[j] != 0,
        i < s.len() ==> s[i] == 0,
    ensures
        nul_prefix(s) == s.subrange(0, i),
    decreases i,
{
    if i == 0 {
        assert(s.subrange(0, 0) =~= Seq::<u8>::empty());
    } else {
        assert(s[0] != 0);
        lemma_nul_prefix_stops(s.drop_first(), i - 1);
        assert(seq![s[0]] + s.drop_first().subrange(0, i - 1) =~= s.subrange(0, i));
    }
}

/// Relies on `String::from_utf8`: a byte vector that is valid UTF-8 converts
/// to the string holding exactly the characters those bytes encode.
#[verifier::external_body]
fn string_from_valid_utf8(bytes: Vec<u8>) -> (s: String)
    requires
        valid_utf8(bytes@),
    ensures
        s@ == decode_utf8(bytes@),
{
    match String::from_utf8(bytes) {
        Ok(s) => s,
        Err(_) => String::new(),
    }
}

/// Decodes a raw statistics report: the text before the first NUL byte,
/// lossily decoded from UTF-8.
///
/// Total on every input: malformed byte sequences become replacement
/// characters, never an error.
pub fn print_stats(raw: &Vec<u8>) -> (s: String)
    ensures
        s@ == lossy_utf8(nul_prefix(raw@)),
{
    let trimmed = take_until_nul(raw);
    let repaired = repair_utf8(&trimmed);
    string_from_valid_utf8(repaired)
}

} // verus!
