//! A fixed-capacity byte string for compartments without an allocator.

use vstd::prelude::*;
use vstd::string::StringSliceAdditionalSpecFns;
use vstd::utf8::{decode_utf8, valid_utf8};
use crate::text::{append_prefix, str_from_utf8};

verus! {

/// Capacity of the buffer.
pub const STRING_CAPACITY: usize = 256;

/// Most bytes `from_str` keeps.
pub const STRING_MAX_LEN: usize = 255;

/// Bytes in a 256-byte buffer, of which the first `len` are the contents.
#[derive(Clone, Copy)]
pub struct String {
    data: [u8; 256],
    len: usize,
}

impl View for String {
    type V = Seq<u8>;

    /// The contents.
    closed spec fn view(&self) -> Seq<u8> {
        self.data@.take(self.len as int)
    }
}

/// A 256-byte buffer holding `b` at its start and zeros after it.
pub open spec fn zero_filled(b: Seq<u8>) -> Seq<u8> {
    Seq::new(STRING_CAPACITY as nat, |i: int| if i < b.len() { b[i] } else { 0u8 })
}

impl String {
    /// The whole 256-byte buffer, the bytes past the contents included.
    pub closed spec fn buffer(&self) -> Seq<u8> {
        self.data@
    }

    /// At most 255 bytes of contents, and zeros after them.
    pub closed spec fn wf(&self) -> bool {
        &&& self.len <= STRING_MAX_LEN
        &&& forall|j: int| self.len <= j < STRING_CAPACITY ==> #[trigger] self.data@[j] == 0u8
    }

    /// The buffer of a well-formed string is its contents followed by zeros.
    pub proof fn lemma_buffer_zero_filled(&self)
        requires
            self.wf(),
        ensures
            self.buffer() == zero_filled(self@),
    {
        assert(self.buffer() =~= zero_filled(self@));
    }

    /// The empty string.
    pub fn new() -> (s: String)
        ensures
            s.wf(),
            s@ == Seq::<u8>::empty(),
            s.buffer() == zero_filled(Seq::empty()),
    {
        let s = String { data: [0u8; 256], len: 0 };
        assert(s@ =~= Seq::<u8>::empty());
        assert(s.buffer() =~= zero_filled(Seq::empty()));
        s
    }

    /// The bytes of `s`, cut to the first 255.
    pub fn from_str(s: &str) -> (r: String)
        ensures
            r.wf(),
            r@ == s.spec_bytes().take(
                if s.spec_bytes().len() <= STRING_MAX_LEN { s.spec_bytes().len() as int } else { STRING_MAX_LEN as int },
            ),
            r.buffer() == zero_filled(r@),
    {
        let mut result = String { data: [0u8; 256], len: 0 };
        let bytes = s.as_bytes();
        let mut i: usize = 0;
        while i < bytes.len() && i < STRING_MAX_LEN
            invariant
                0 <= i <= STRING_MAX_LEN,
                i <= bytes@.len(),
                bytes@ == s.spec_bytes(),
                result.len == i,
                result.data@.len() == STRING_CAPACITY,
                forall|j: int| 0 <= j < i ==> result.data@[j] == bytes@[j],
                forall|j: int| i <= j < STRING_CAPACITY ==> result.data@[j] == 0u8,
            decreases STRING_MAX_LEN - i,
        {
            result.data[i] = bytes[i];
            result.len = result.len + 1;
            i = i + 1;
        }
        assert(result@ =~= s.spec_bytes().take(i as int));
        assert(result.buffer() =~= zero_filled(result@));
        result
    }

    /// Number of bytes.
    pub fn len(&self) -> (n: usize)
        requires
            self.wf(),
        ensures
            n == self@.len(),
    {
        self.len
    }

    /// The contents as text: their UTF-8 decoding, or nothing when they are
    /// not UTF-8.
    pub fn to_text(&self) -> (t: std::string::String)
        requires
            self.wf(),
        ensures
            t@ == if valid_utf8(self@) { decode_utf8(self@) } else { Seq::<char>::empty() },
    {
        let mut bytes: Vec<u8> = Vec::new();
        append_prefix(&mut bytes, self.data.as_slice(), self.len);
        assert(bytes@ =~= self@);
        let ghost b = bytes@;
        match str_from_utf8(bytes.as_slice()) {
            Ok(s) => {
                proof {
                    vstd::utf8::encode_utf8_decode_utf8(s@);
                    assert(s.spec_bytes() == b);
                    assert(decode_utf8(b) == s@);
                }
                let t = s.to_string();
                assert(t@ == s@);
                t
            },
            Err(_) => {
                proof {
                    reveal_strlit("");
                }
                "".to_string()
            },
        }
    }
}

} // verus!

verus! {

/// Text of at most 255 bytes survives a round trip: `from_str` keeps all
/// of its bytes, they are UTF-8, and `to_text` decodes them to the same
/// characters.
pub proof fn lemma_from_str_round_trip(s: &str)
    requires
        s.spec_bytes().len() <= STRING_MAX_LEN,
    ensures
        s.spec_bytes().take(s.spec_bytes().len() as int) == s.spec_bytes(),
        valid_utf8(s.spec_bytes()),
        decode_utf8(s.spec_bytes()) == s@,
{
    assert(s.spec_bytes().take(s.spec_bytes().len() as int) =~= s.spec_bytes());
    vstd::utf8::encode_utf8_valid_utf8(s@);
    vstd::utf8::encode_utf8_decode_utf8(s@);
}

} // verus!
