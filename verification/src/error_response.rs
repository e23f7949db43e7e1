//! The error-response frame.
//!
//! When an inbound stream frame cannot be handled, the dispatcher answers
//! with an error response carrying a human-readable message. On the wire the
//! message is its UTF-8 bytes behind a four-byte big-endian length prefix.

use vstd::prelude::*;

use crate::wire::{put_bytes, put_u32_be, read_bytes, read_u32_be, spec_be32, spec_from_be32};
use vstd::string::StringSliceAdditionalSpecFns;
use vstd::utf8::{decode_utf8, encode_utf8, valid_utf8};

verus! {

/// The error type returned when encoding or decoding an error response
/// fails.
#[derive(Clone, Copy, Debug, PartialEq, Eq, Structural)]
pub enum ErrorResponseError {
    /// The buffer offered to `encode` is too small; `encoded_len` says how
    /// much space is needed.
    EncodeBufferTooSmall,
    /// The bytes offered to `decode` are shorter than the length prefix
    /// demands.
    NotEnoughBytes,
    /// The message bytes are not valid UTF-8.
    Utf8Error,
}

/// An error message sent back over a stream connection.
#[derive(Debug, PartialEq, Eq, Clone)]
pub struct ErrorResponse {
    err: String,
}

impl View for ErrorResponse {
    type V = Seq<char>;

    closed spec fn view(&self) -> Seq<char> {
        self.err@
    }
}

/// What `decode` finds in `b`: the consumed length and the message
/// characters, or the error.
pub open spec fn spec_decode(b: Seq<u8>) -> Result<(int, Seq<char>), ErrorResponseError> {
    if b.len() < 4 {
        Err(ErrorResponseError::NotEnoughBytes)
    } else {
        let n = spec_from_be32(b.subrange(0, 4)) as int;
        if n > b.len() - 4 {
            Err(ErrorResponseError::NotEnoughBytes)
        } else {
            let data = b.subrange(4, 4 + n);
            if valid_utf8(data) {
                Ok((4 + n, decode_utf8(data)))
            } else {
                Err(ErrorResponseError::Utf8Error)
            }
        }
    }
}

/// Relies on String::from_utf8: succeeds exactly on valid UTF-8 input, and
/// the string then holds exactly the input bytes.
#[verifier::external_body]
fn string_from_utf8(v: Vec<u8>) -> (r: Option<String>)
    ensures
        r is Some <==> valid_utf8(v@),
        r matches Some(s) ==> encode_utf8(s@) == v@,
{
    String::from_utf8(v).ok()
}

impl ErrorResponse {
    /// The UTF-8 bytes of the message.
    pub open spec fn spec_bytes(self) -> Seq<u8> {
        encode_utf8(self@)
    }

    /// The whole encoding: four big-endian length bytes, then the message
    /// bytes.
    pub open spec fn spec_encoding(self) -> Seq<u8> {
        spec_be32(self.spec_bytes().len() as u32) + self.spec_bytes()
    }

    /// The message bytes, with their length prefix, fit the wire format's
    /// four-byte length.
    pub open spec fn fits(self) -> bool {
        self.spec_bytes().len() + 4 <= u32::MAX
    }

    /// Builds an error response from UTF-8 bytes; yields nothing when the
    /// bytes are not UTF-8.
    pub fn from_utf8_bytes(v: Vec<u8>) -> (r: Option<Self>)
        ensures
            r is Some <==> valid_utf8(v@),
            r matches Some(e) ==> encode_utf8(e@) == v@,
    {
        match string_from_utf8(v) {
            Some(s) => Some(ErrorResponse { err: s }),
            None => None,
        }
    }

    /// Wraps a message.
    pub fn new(err: String) -> (r: Self)
        ensures
            r@ == err@,
    {
        ErrorResponse { err }
    }

    /// The message.
    pub fn message(&self) -> (r: &str)
        ensures
            r@ == self@,
    {
        self.err.as_str()
    }

    /// The number of bytes `encode` writes: four for the length prefix plus
    /// one per message byte.
    pub fn encoded_len(&self) -> (r: usize)
        requires
            self.fits(),
        ensures
            r == self.spec_encoding().len(),
            r == 4 + self.spec_bytes().len(),
    {
        4 + self.err.as_str().len()
    }

    /// Writes the encoding over the front of `dst`, leaving the bytes past
    /// it unchanged, and returns how many bytes were written. Fails with
    /// `EncodeBufferTooSmall`, writing nothing, when `dst` is shorter than
    /// the encoding.
    pub fn encode(&self, dst: &mut Vec<u8>) -> (r: Result<usize, ErrorResponseError>)
        requires
            self.fits(),
        ensures
            r is Err <==> old(dst)@.len() < self.spec_encoding().len(),
            r is Err ==> r == Err::<usize, ErrorResponseError>(
                ErrorResponseError::EncodeBufferTooSmall,
            ) && final(dst)@ == old(dst)@,
            r matches Ok(n) ==> n == self.spec_encoding().len() && final(dst)@
                == self.spec_encoding() + old(dst)@.skip(n as int),
    {
        let needed = self.encoded_len();
        if dst.len() < needed {
            return Err(ErrorResponseError::EncodeBufferTooSmall);
        }
        let bytes = self.err.as_str().as_bytes();
        let mut out: Vec<u8> = Vec::new();
        put_u32_be(&mut out, bytes.len() as u32);
        put_bytes(&mut out, bytes);
        assert(out@ =~= self.spec_encoding());
        let mut i: usize = needed;
        while i < dst.len()
            invariant
                needed <= i <= dst@.len(),
                out@ == self.spec_encoding() + dst@.subrange(needed as int, i as int),
                dst@ == old(dst)@,
                needed == self.spec_encoding().len(),
            decreases dst@.len() - i,
        {
            let b = dst[i];
            out.push(b);
            assert(out@ =~= self.spec_encoding() + dst@.subrange(needed as int, i + 1));
            i = i + 1;
        }
        assert(out@ =~= self.spec_encoding() + old(dst)@.skip(needed as int));
        *dst = out;
        Ok(needed)
    }

    /// Reads one encoded error response from the front of `src` and returns
    /// it with the number of bytes consumed. Fails with `NotEnoughBytes`
    /// when `src` is shorter than the length prefix demands, and with
    /// `Utf8Error` when the message bytes are not UTF-8.
    pub fn decode(src: &[u8]) -> (r: Result<(usize, Self), ErrorResponseError>)
        ensures
            r matches Ok((n, er)) ==> spec_decode(src@) == Ok::<(int, Seq<char>),
                ErrorResponseError,
            >((n as int, er@)),
            r matches Err(e) ==> spec_decode(src@) == Err::<(int, Seq<char>),
                ErrorResponseError,
            >(e),
    {
        if src.len() < 4 {
            return Err(ErrorResponseError::NotEnoughBytes);
        }
        let data_len = read_u32_be(src, 0) as usize;
        if data_len > src.len() - 4 {
            return Err(ErrorResponseError::NotEnoughBytes);
        }
        let data = read_bytes(src, 4, data_len);
        match string_from_utf8(data) {
            Some(s) => {
                let er = ErrorResponse { err: s };
                proof {
                    let bs = src@.subrange(4, 4 + data_len as int);
                    vstd::utf8::encode_utf8_decode_utf8(er@);
                    vstd::utf8::decode_utf8_encode_utf8(bs);
                }
                Ok((4 + data_len, er))
            },
            None => Err(ErrorResponseError::Utf8Error),
        }
    }
}

/// Decoding an encoding gives back the message: for every error response
/// whose encoding is at the front of the bytes, `decode` succeeds, consumes
/// exactly the encoding, and yields the same message.
pub proof fn lemma_error_response_round_trip(e: ErrorResponse, rest: Seq<u8>)
    requires
        e.fits(),
    ensures
        spec_decode(e.spec_encoding() + rest) == Ok::<(int, Seq<char>), ErrorResponseError>(
            (e.spec_encoding().len() as int, e@),
        ),
{
    let b = e.spec_encoding() + rest;
    let nbytes = e.spec_bytes().len();
    assert(b.subrange(0, 4) =~= spec_be32(nbytes as u32));
    crate::wire::lemma_be32_round_trip(nbytes as u32);
    assert(spec_from_be32(b.subrange(0, 4)) == nbytes);
    assert(b.subrange(4, 4 + nbytes as int) =~= e.spec_bytes());
    vstd::utf8::encode_utf8_valid_utf8(e@);
    vstd::utf8::encode_utf8_decode_utf8(e@);
}

} // verus!
