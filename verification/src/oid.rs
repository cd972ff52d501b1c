//! Object identifiers: the twenty bytes by which git names a commit, a tree
//! or a blob, and their forty-digit hexadecimal spelling.

use vstd::prelude::*;
use vstd::std_specs::cmp::PartialEqSpecImpl;
use crate::text::{string_from_chars, to_chars};

verus! {

/// Number of bytes in an object id.
pub const OID_BYTES: usize = 20;

/// Number of hexadecimal digits in the spelling of an object id.
pub const OID_HEX_LEN: usize = 40;

/// The id of a git object.
#[derive(Clone, Copy, Debug)]
pub struct ObjectId {
    bytes: [u8; 20],
}

impl View for ObjectId {
    type V = Seq<u8>;

    open spec fn view(&self) -> Seq<u8> {
        self.as_seq()
    }
}

impl PartialEq for ObjectId {
    fn eq(&self, other: &ObjectId) -> (r: bool) {
        let mut i: usize = 0;
        while i < 20
            invariant
                i <= 20,
                forall|j: int| 0 <= j < i ==> self.bytes@[j] == other.bytes@[j],
            decreases 20 - i,
        {
            if self.bytes[i] != other.bytes[i] {
                return false;
            }
            i = i + 1;
        }
        assert(self.bytes@ =~= other.bytes@);
        true
    }
}

impl Eq for ObjectId {

}

impl PartialEqSpecImpl for ObjectId {
    open spec fn obeys_eq_spec() -> bool {
        true
    }

    open spec fn eq_spec(&self, other: &ObjectId) -> bool {
        self@ == other@
    }
}

/// The lower-case hexadecimal digit of a value below sixteen.
pub open spec fn hex_digit(n: int) -> char {
    if n < 10 {
        ((48 + n) as u8) as char
    } else {
        ((87 + n) as u8) as char
    }
}

/// Whether `c` is a hexadecimal digit, of either case.
pub open spec fn is_hex_digit(c: char) -> bool {
    ('0' <= c <= '9') || ('a' <= c <= 'f') || ('A' <= c <= 'F')
}

/// The value of a hexadecimal digit.
pub open spec fn hex_value(c: char) -> int {
    if '0' <= c <= '9' {
        c as int - 48
    } else if 'a' <= c <= 'f' {
        c as int - 87
    } else {
        c as int - 55
    }
}

/// The hexadecimal spelling of a byte string: two lower-case digits a byte,
/// the high half first.
pub open spec fn hex_of(bytes: Seq<u8>) -> Seq<char> {
    Seq::new(
        2 * bytes.len(),
        |i: int|
            if i % 2 == 0 {
                hex_digit(bytes[i / 2] as int / 16)
            } else {
                hex_digit(bytes[i / 2] as int % 16)
            },
    )
}

/// Whether `s` spells an object id: exactly forty hexadecimal digits.
pub open spec fn is_oid_hex(s: Seq<char>) -> bool {
    &&& s.len() == 40
    &&& forall|i: int| 0 <= i < 40 ==> is_hex_digit(#[trigger] s[i])
}

/// The bytes that forty hexadecimal digits spell.
pub open spec fn bytes_of_hex(s: Seq<char>) -> Seq<u8> {
    Seq::new(20, |i: int| (hex_value(s[2 * i]) * 16 + hex_value(s[2 * i + 1])) as u8)
}

/// Reading the spelling of an object id gives its bytes back.
pub proof fn lemma_hex_round_trip(bytes: Seq<u8>)
    requires
        bytes.len() == 20,
    ensures
        is_oid_hex(hex_of(bytes)),
        bytes_of_hex(hex_of(bytes)) == bytes,
{
    let s = hex_of(bytes);
    assert forall|i: int| 0 <= i < 40 implies is_hex_digit(#[trigger] s[i]) by {
        let b = bytes[i / 2] as int;
        assert(0 <= b / 16 < 16 && 0 <= b % 16 < 16);
    }
    assert forall|i: int| 0 <= i < 20 implies #[trigger] bytes_of_hex(s)[i] == bytes[i] by {
        let b = bytes[i] as int;
        assert((2 * i) % 2 == 0 && (2 * i) / 2 == i);
        assert((2 * i + 1) % 2 == 1 && (2 * i + 1) / 2 == i);
        assert(s[2 * i] == hex_digit(b / 16));
        assert(s[2 * i + 1] == hex_digit(b % 16));
        assert(0 <= b / 16 < 16 && 0 <= b % 16 < 16);
        assert(hex_value(hex_digit(b / 16)) == b / 16);
        assert(hex_value(hex_digit(b % 16)) == b % 16);
        assert((b / 16) * 16 + b % 16 == b);
    }
    assert(bytes_of_hex(s) =~= bytes);
}

fn digit_of(n: u8) -> (c: char)
    requires
        n < 16,
    ensures
        c == hex_digit(n as int),
{
    if n < 10 {
        (48 + n) as char
    } else {
        (87 + n) as char
    }
}

fn value_of(c: char) -> (r: Option<u8>)
    ensures
        r is Some <==> is_hex_digit(c),
        r matches Some(v) ==> v == hex_value(c) && v < 16,
{
    if c >= '0' && c <= '9' {
        Some(c as u8 - 48)
    } else if c >= 'a' && c <= 'f' {
        Some(c as u8 - 87)
    } else if c >= 'A' && c <= 'F' {
        Some(c as u8 - 55)
    } else {
        None
    }
}

impl ObjectId {
    /// The twenty bytes of the id.
    pub closed spec fn as_seq(&self) -> Seq<u8> {
        self.bytes@
    }

    /// An object id always has twenty bytes.
    pub proof fn lemma_len(&self)
        ensures
            self@.len() == 20,
    {
    }

    /// The id with the given bytes.
    pub fn from_bytes(bytes: [u8; 20]) -> (r: ObjectId)
        ensures
            r@ == bytes@,
    {
        ObjectId { bytes }
    }

    /// The bytes of the id.
    pub fn to_bytes(&self) -> (r: [u8; 20])
        ensures
            r@ == self@,
    {
        self.bytes
    }

    /// The id whose bytes are all zero.
    pub fn zero() -> (r: ObjectId)
        ensures
            r@ == Seq::new(20, |i: int| 0u8),
    {
        let r = ObjectId { bytes: [0u8; 20] };
        assert(r@ =~= Seq::new(20, |i: int| 0u8));
        r
    }

    /// The forty lower-case hexadecimal digits that spell the id.
    pub fn to_hex(&self) -> (r: String)
        ensures
            r@ == hex_of(self@),
    {
        let mut out: Vec<char> = Vec::new();
        let mut i: usize = 0;
        while i < 20
            invariant
                i <= 20,
                out@.len() == 2 * i,
                forall|j: int| 0 <= j < 2 * i ==> out@[j] == hex_of(self.bytes@)[j],
            decreases 20 - i,
        {
            let b: u8 = self.bytes[i];
            out.push(digit_of(b / 16));
            out.push(digit_of(b % 16));
            assert((2 * i) % 2 == 0 && (2 * i) / 2 == i);
            assert((2 * i + 1) % 2 == 1 && (2 * i + 1) / 2 == i);
            i = i + 1;
        }
        assert(out@ =~= hex_of(self.bytes@));
        string_from_chars(&out)
    }

    /// Reads the spelling of an object id: exactly forty hexadecimal
    /// digits, of either case. Anything else is refused; so is a shorter
    /// run of digits, which is not filled up with zeros, and the empty
    /// text.
    pub fn from_hex(s: &str) -> (r: Option<ObjectId>)
        ensures
            r is Some <==> is_oid_hex(s@),
            r matches Some(id) ==> id@ == bytes_of_hex(s@),
    {
        let chars = to_chars(s);
        if chars.len() != 40 {
            return None;
        }
        let mut bytes: [u8; 20] = [0u8; 20];
        let mut i: usize = 0;
        while i < 20
            invariant
                i <= 20,
                chars@.len() == 40,
                chars@ == s@,
                forall|j: int| 0 <= j < 2 * i ==> is_hex_digit(#[trigger] chars@[j]),
                forall|j: int| 0 <= j < i ==> #[trigger] bytes@[j] == bytes_of_hex(chars@)[j],
            decreases 20 - i,
        {
            let hi = value_of(chars[2 * i]);
            let lo = value_of(chars[2 * i + 1]);
            match (hi, lo) {
                (Some(h), Some(l)) => {
                    bytes[i] = h * 16 + l;
                },
                _ => {
                    return None;
                },
            }
            i = i + 1;
        }
        assert(bytes@ =~= bytes_of_hex(s@));
        Some(ObjectId { bytes })
    }
}

} // verus!
