use vstd::prelude::*;
use vstd::utf8::{decode_utf8, encode_utf8, valid_utf8};

use crate::error::{outcome_of, too_small, Outcome, ReadFromBytesError};
use crate::FromBytes;

verus! {

/// A blob of bytes whose length is configured before decoding: it decodes from a slice of
/// exactly that length. Within an aggregate, a size override on the blob's field is its
/// configured length.
#[derive(Clone, Debug, Default, PartialEq, Eq)]
pub struct BytesArray {
    pub bytes: Vec<u8>,
}

impl View for BytesArray {
    type V = Seq<u8>;

    open spec fn view(&self) -> Seq<u8> {
        self.bytes@
    }
}

impl BytesArray {
    /// A blob configured to hold `size` bytes, all zero.
    pub fn with_size(size: usize) -> (r: BytesArray)
        ensures
            r@ == Seq::new(size as nat, |i: int| 0u8),
    {
        let mut bytes: Vec<u8> = Vec::with_capacity(size);
        let mut i: usize = 0;
        while i < size
            invariant
                i <= size,
                bytes@ == Seq::new(i as nat, |j: int| 0u8),
            decreases size - i,
        {
            bytes.push(0);
            i = i + 1;
        }
        BytesArray { bytes }
    }
}

/// The message of the format error for a slice longer than a blob.
pub open spec fn blob_too_long_message() -> Seq<char> {
    "slice is longer than the byte array"@
}

/// The message of the format error for text that is not UTF-8.
pub open spec fn invalid_text_message() -> Seq<char> {
    "text is not valid UTF-8"@
}

/// What decoding `b` into a blob holding `v` yields: a slice of another length fails
/// (too small when shorter, malformed when longer) and leaves the blob as it was.
pub open spec fn load_blob(v: Seq<u8>, b: Seq<u8>) -> (Seq<u8>, Outcome) {
    if b.len() < v.len() {
        (v, Outcome::TooSmall(v.len(), b.len()))
    } else if b.len() > v.len() {
        (v, Outcome::Malformed(blob_too_long_message()))
    } else {
        (b, Outcome::Done)
    }
}

impl FromBytes for BytesArray {
    open spec fn spec_size(v: Seq<u8>) -> nat {
        v.len()
    }

    open spec fn spec_load(v: Seq<u8>, bytes: Seq<u8>) -> (Seq<u8>, Outcome) {
        load_blob(v, bytes)
    }

    fn load_from_bytes(&mut self, bytes: &[u8]) -> (r: Result<(), ReadFromBytesError>) {
        let size = self.bytes.len();
        if bytes.len() < size {
            return too_small(size, bytes.len());
        }
        if bytes.len() > size {
            return Err(
                ReadFromBytesError::BytesFormatError(
                    String::from_str("slice is longer than the byte array"),
                ),
            );
        }
        let mut out: Vec<u8> = Vec::with_capacity(size);
        let mut i: usize = 0;
        while i < size
            invariant
                i <= size,
                size == bytes@.len(),
                out@ == bytes@.subrange(0, i as int),
            decreases size - i,
        {
            out.push(bytes[i]);
            i = i + 1;
        }
        assert(out@ =~= bytes@);
        self.bytes = out;
        Ok(())
    }

    fn bytes_size(&self) -> (r: usize) {
        self.bytes.len()
    }
}

/// Text stored inline as bytes ending in a zero byte.
#[derive(Clone, Debug, Default, PartialEq, Eq)]
pub struct InlineCString {
    pub contents: String,
}

impl View for InlineCString {
    type V = Seq<char>;

    open spec fn view(&self) -> Seq<char> {
        self.contents@
    }
}

/// Index of the first zero byte of `b`, or its length where it holds none.
pub open spec fn terminator_index(b: Seq<u8>) -> nat
    decreases b.len(),
{
    if b.len() == 0 {
        0
    } else if b[0] == 0 {
        0
    } else {
        1 + terminator_index(b.drop_first())
    }
}

/// What decoding `b` into text yields: the bytes before the first zero byte (all of `b`
/// where there is none), read as UTF-8; bytes that are not UTF-8 leave the text as it was.
pub open spec fn load_text(v: Seq<char>, b: Seq<u8>) -> (Seq<char>, Outcome) {
    let content = b.subrange(0, terminator_index(b) as int);
    if valid_utf8(content) {
        (decode_utf8(content), Outcome::Done)
    } else {
        (v, Outcome::Malformed(invalid_text_message()))
    }
}

proof fn lemma_terminator_index(b: Seq<u8>, i: int)
    requires
        0 <= i <= b.len(),
        forall|j: int| 0 <= j < i ==> b[j] != 0,
        i == b.len() || b[i] == 0,
    ensures
        terminator_index(b) == i,
    decreases i,
{
    if i > 0 {
        let t = b.drop_first();
        lemma_terminator_index(t, i - 1);
    }
}

/// Relies on `std::str::from_utf8`: it succeeds exactly on valid UTF-8, and the text it
/// gives is what the bytes encode.
#[verifier::external_body]
fn str_from_utf8(b: &[u8]) -> (r: Option<&str>)
    ensures
        r is Some <==> valid_utf8(b@),
        r matches Some(s) ==> s@ == decode_utf8(b@),
{
    std::str::from_utf8(b).ok()
}

impl FromBytes for InlineCString {
    /// The length of the text's UTF-8 encoding (which a `String` keeps within `usize`).
    open spec fn spec_size(v: Seq<char>) -> nat {
        encode_utf8(v).len() as usize as nat
    }

    open spec fn spec_load(v: Seq<char>, bytes: Seq<u8>) -> (Seq<char>, Outcome) {
        load_text(v, bytes)
    }

    fn load_from_bytes(&mut self, bytes: &[u8]) -> (r: Result<(), ReadFromBytesError>) {
        let mut end: usize = 0;
        while end < bytes.len() && bytes[end] != 0
            invariant
                end <= bytes@.len(),
                forall|j: int| 0 <= j < end ==> bytes@[j] != 0,
            decreases bytes@.len() - end,
        {
            end = end + 1;
        }
        proof {
            lemma_terminator_index(bytes@, end as int);
        }
        let content = slice_prefix(bytes, end);
        match str_from_utf8(content) {
            Some(s) => {
                self.contents = s.to_owned();
                Ok(())
            },
            None => Err(
                ReadFromBytesError::BytesFormatError(
                    String::from_str("text is not valid UTF-8"),
                ),
            ),
        }
    }

    fn bytes_size(&self) -> (r: usize) {
        self.contents.as_str().len()
    }
}

/// The first `n` bytes of `b`.
fn slice_prefix(b: &[u8], n: usize) -> (r: &[u8])
    requires
        n <= b@.len(),
    ensures
        r@ == b@.subrange(0, n as int),
{
    vstd::slice::slice_subrange(b, 0, n)
}

impl From<InlineCString> for String {
    fn from(in_str: InlineCString) -> (r: String) {
        in_str.contents
    }
}

impl vstd::std_specs::convert::FromSpecImpl<InlineCString> for String {
    open spec fn obeys_from_spec() -> bool {
        true
    }

    open spec fn from_spec(v: InlineCString) -> String {
        v.contents
    }
}

} // verus!
