//! Channel addresses in the form in which they are handed to the media driver.

use vstd::prelude::*;

verus! {

/// Whether a string holds a NUL.
pub open spec fn holds_nul(chars: Seq<char>) -> bool {
    chars.contains('\0')
}

/// Of the bytes that UTF-8 writes for a scalar, one is zero only where the
/// scalar itself is.
proof fn lemma_scalar_nul(scalar: u32)
    requires
        vstd::utf8::is_scalar(scalar),
    ensures
        vstd::utf8::encode_scalar(scalar).contains(0u8) <==> scalar == 0,
{
    let bytes = vstd::utf8::encode_scalar(scalar);
    if vstd::utf8::has_width_1_encoding(scalar) {
        assert(vstd::utf8::leading_byte_width_1(scalar) == 0 <==> scalar == 0) by (bit_vector)
            requires
                vstd::utf8::has_width_1_encoding(scalar),
        ;
        assert(bytes[0] == vstd::utf8::leading_byte_width_1(scalar));
    } else {
        assert(vstd::utf8::leading_byte_width_2(scalar) != 0) by (bit_vector);
        assert(vstd::utf8::leading_byte_width_3(scalar) != 0) by (bit_vector);
        assert(vstd::utf8::leading_byte_width_4(scalar) != 0) by (bit_vector);
        assert(vstd::utf8::last_continuation_byte(scalar) != 0) by (bit_vector);
        assert(vstd::utf8::second_last_continuation_byte(scalar) != 0) by (bit_vector);
        assert(vstd::utf8::third_last_continuation_byte(scalar) != 0) by (bit_vector);
    }
}

/// The UTF-8 form of a string holds a zero byte exactly where the string holds
/// a NUL.
pub proof fn law_nul_bytes(chars: Seq<char>)
    ensures
        vstd::utf8::encode_utf8(chars).contains(0u8) <==> holds_nul(chars),
    decreases chars.len(),
{
    let bytes = vstd::utf8::encode_utf8(chars);
    if chars.len() > 0 {
        let first = vstd::utf8::encode_scalar(chars[0] as u32);
        let rest = chars.drop_first();
        let tail = vstd::utf8::encode_utf8(rest);
        vstd::utf8::char_is_scalar(chars[0]);
        vstd::utf8::char_u32_cast(chars[0], chars[0] as u32);
        lemma_scalar_nul(chars[0] as u32);
        law_nul_bytes(rest);
        if holds_nul(chars) {
            let i = choose|i: int| 0 <= i < chars.len() && chars[i] == '\0';
            if i == 0 {
                let k = choose|k: int| 0 <= k < first.len() && first[k] == 0u8;
                assert(bytes[k] == 0u8);
            } else {
                assert(rest[i - 1] == '\0');
                let k = choose|k: int| 0 <= k < tail.len() && tail[k] == 0u8;
                assert(bytes[first.len() + k] == 0u8);
            }
        }
        if bytes.contains(0u8) {
            let k = choose|k: int| 0 <= k < bytes.len() && bytes[k] == 0u8;
            if k < first.len() {
                assert(first[k] == 0u8);
                assert(chars[0] == '\0');
            } else {
                assert(tail[k - first.len()] == 0u8);
                let i = choose|i: int| 0 <= i < rest.len() && rest[i] == '\0';
                assert(chars[i + 1] == '\0');
            }
        }
    }
}

/// The bytes of a channel address. None of them is NUL, so that a single NUL
/// can end them.
#[derive(Debug, PartialEq, Eq)]
pub struct ChannelUri {
    bytes: Vec<u8>,
}

impl View for ChannelUri {
    type V = Seq<u8>;

    closed spec fn view(&self) -> Seq<u8> {
        self.bytes@
    }
}

impl ChannelUri {
    #[verifier::type_invariant]
    spec fn has_no_nul(&self) -> bool {
        !self.bytes@.contains(0u8)
    }

    /// The address that is made up of `bytes`, or `None` where one of them is
    /// zero. The bytes may be in any encoding.
    pub fn from_bytes(bytes: Vec<u8>) -> (r: Option<ChannelUri>)
        ensures
            match r {
                Some(channel) => !bytes@.contains(0u8) && channel@ == bytes@,
                None => bytes@.contains(0u8),
            },
    {
        let mut i: usize = 0;
        while i < bytes.len()
            invariant
                i <= bytes@.len(),
                forall|j: int| 0 <= j < i ==> bytes@[j] != 0u8,
            decreases bytes@.len() - i,
        {
            if bytes[i] == 0 {
                return None;
            }
            i += 1;
        }
        Some(ChannelUri { bytes })
    }

    /// The address written in `uri`, or `None` where it holds a NUL.
    pub fn new(uri: String) -> (r: Option<ChannelUri>)
        ensures
            match r {
                Some(channel) => !holds_nul(uri@) && channel@ == vstd::utf8::encode_utf8(uri@),
                None => holds_nul(uri@),
            },
    {
        proof {
            law_nul_bytes(uri@);
        }
        ChannelUri::from_bytes(uri.as_str().as_bytes_vec())
    }

    /// The bytes of the address, without the NUL that is to end them.
    pub fn as_bytes(&self) -> (bytes: &[u8])
        ensures
            bytes@ == self@,
            !bytes@.contains(0u8),
    {
        proof {
            use_type_invariant(self);
        }
        self.bytes.as_slice()
    }
}

impl Clone for ChannelUri {
    fn clone(&self) -> (r: Self)
        ensures
            r@ == self@,
    {
        proof {
            use_type_invariant(self);
        }
        let bytes = self.bytes.clone();
        assert(bytes@ =~= self.bytes@);
        ChannelUri { bytes }
    }
}

} // verus!
