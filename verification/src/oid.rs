//! Object ids: SHA-1 digests, and their hexadecimal form.

use crate::text::decimal;
use vstd::prelude::*;
use vstd::set_lib::{lemma_int_range, lemma_set_subset_finite, set_int_range};
use vstd::utf8::{encode_utf8, is_ascii_chars, is_ascii_chars_encode_utf8};

verus! {

/// The id of an object: twenty bytes.
#[derive(Clone, Copy, Debug, PartialEq, Eq, Hash)]
pub struct ObjectId {
    pub bytes: [u8; 20],
}

impl View for ObjectId {
    type V = Seq<u8>;

    open spec fn view(&self) -> Seq<u8> {
        self.bytes@
    }
}

/// Ids with the same bytes are the same id.
proof fn lemma_same_bytes(a: ObjectId, b: ObjectId)
    requires
        a@ == b@,
    ensures
        a == b,
{
    assert(a.bytes =~= b.bytes);
}

impl ObjectId {
    /// Whether the two ids are the same.
    pub fn same(&self, other: &ObjectId) -> (r: bool)
        ensures
            r == (*self == *other),
    {
        let mut i: usize = 0;
        while i < 20
            invariant
                i <= 20,
                forall|j: int| 0 <= j < i ==> self.bytes[j] == other.bytes[j],
            decreases 20 - i,
        {
            if self.bytes[i] != other.bytes[i] {
                assert(self.bytes[i as int] != other.bytes[i as int]);
                return false;
            }
            i += 1;
        }
        assert(self.bytes =~= other.bytes);
        true
    }
}

/// The hexadecimal digit for a value below sixteen, in lower case.
pub open spec fn hex_digit(n: int) -> char {
    if n < 10 {
        ('0' as u32 + n) as char
    } else {
        ('a' as u32 + (n - 10)) as char
    }
}

/// Bytes in hexadecimal: two lower-case digits for each, the high half first.
pub open spec fn hex_text(bytes: Seq<u8>) -> Seq<char> {
    Seq::new(
        2 * bytes.len(),
        |i: int|
            if i % 2 == 0 {
                hex_digit(bytes[i / 2] as int / 16)
            } else {
                hex_digit(bytes[i / 2] as int % 16)
            },
    )
}

/// The value of a hexadecimal digit of either case.
pub open spec fn hex_value(b: u8) -> Option<int> {
    if 48 <= b <= 57 {
        Some(b - 48)
    } else if 97 <= b <= 102 {
        Some(b - 97 + 10)
    } else if 65 <= b <= 70 {
        Some(b - 65 + 10)
    } else {
        None
    }
}

/// Whether every byte is a hexadecimal digit of either case.
pub open spec fn is_hex(s: Seq<u8>) -> bool {
    forall|i: int| 0 <= i < s.len() ==> hex_value(#[trigger] s[i]) is Some
}

/// The bytes that pairs of hexadecimal digits write.
pub open spec fn hex_bytes(s: Seq<u8>) -> Seq<u8> {
    Seq::new(
        s.len() / 2,
        |i: int| (hex_value(s[2 * i])->0 * 16 + hex_value(s[2 * i + 1])->0) as u8,
    )
}

/// The bytes of the id that a text writes, or why it writes none.
pub open spec fn parsed_hex(s: Seq<u8>) -> Result<Seq<u8>, Seq<char>> {
    if s.len() != 40 {
        Err("A hash sized "@ + decimal(s.len() as int) + " hexadecimal characters is invalid"@)
    } else if !is_hex(s) {
        Err("Invalid character encountered"@)
    } else {
        Ok(hex_bytes(s))
    }
}

/// `ObjectId::from_hex` of `gix`, with its error as text: forty hexadecimal digits of either
/// case, two for each byte; another length, and any other character, are errors of their own.
#[verifier::external_body]
pub(crate) fn from_hex(s: &[u8]) -> (r: Result<ObjectId, String>)
    ensures
        match r {
            Ok(id) => parsed_hex(s@) == Ok::<Seq<u8>, Seq<char>>(id@),
            Err(e) => parsed_hex(s@) == Err::<Seq<u8>, Seq<char>>(e@),
        },
{
    match gix::ObjectId::from_hex(s) {
        Ok(gix::ObjectId::Sha1(bytes)) => Ok(ObjectId { bytes }),
        Err(e) => Err(e.to_string()),
    }
}

/// `ToString` for the `ObjectId` of `gix`: the bytes in hexadecimal, in lower case.
#[verifier::external_body]
pub(crate) fn to_hex(id: &ObjectId) -> (r: String)
    ensures
        r@ == hex_text(id@),
{
    gix::ObjectId::Sha1(id.bytes).to_string()
}

/// The hexadecimal form of an id is read as that id, and no other id has the same form.
pub proof fn law_hex_is_read_back(id: ObjectId, other: ObjectId)
    ensures
        parsed_hex(encode_utf8(hex_text(id@))) == Ok::<Seq<u8>, Seq<char>>(id@),
        hex_text(id@) == hex_text(other@) ==> id == other,
{
    lemma_hex_read_back(id@);
    lemma_hex_read_back(other@);
    if hex_text(id@) == hex_text(other@) {
        lemma_same_bytes(id, other);
    }
}

proof fn lemma_hex_read_back(bytes: Seq<u8>)
    requires
        bytes.len() == 20,
    ensures
        parsed_hex(encode_utf8(hex_text(bytes))) == Ok::<Seq<u8>, Seq<char>>(bytes),
{
    let text = hex_text(bytes);
    assert forall|n: int| 0 <= n < 16 implies (#[trigger] hex_digit(n)) as u32 <= 127 && hex_value(
        hex_digit(n) as u8,
    ) == Some(n) by {}
    assert(is_ascii_chars(text)) by {
        assert forall|i: int| 0 <= i < text.len() implies '\0' <= #[trigger] text[i] <= '\u{7f}' by {
            let n = if i % 2 == 0 {
                bytes[i / 2] as int / 16
            } else {
                bytes[i / 2] as int % 16
            };
            assert(text[i] == hex_digit(n));
        }
    }
    is_ascii_chars_encode_utf8(text);
    let s = encode_utf8(text);
    assert forall|i: int| 0 <= i < 20 implies hex_value(#[trigger] s[2 * i]) == Some(
        bytes[i] as int / 16,
    ) && hex_value(s[2 * i + 1]) == Some(bytes[i] as int % 16) by {
        assert((2 * i) / 2 == i && (2 * i) % 2 == 0);
        assert((2 * i + 1) / 2 == i && (2 * i + 1) % 2 == 1);
        assert(text[2 * i] == hex_digit(bytes[i] as int / 16));
        assert(text[2 * i + 1] == hex_digit(bytes[i] as int % 16));
        assert(s[2 * i] == text[2 * i] as u8);
        assert(s[2 * i + 1] == text[2 * i + 1] as u8);
    }
    assert forall|j: int| 0 <= j < s.len() implies hex_value(#[trigger] s[j]) is Some by {
        let i = j / 2;
        assert(hex_value(s[2 * i]) is Some && hex_value(s[2 * i + 1]) is Some);
        assert(j == 2 * i || j == 2 * i + 1);
    }
    assert(hex_bytes(s) =~= bytes) by {
        assert forall|i: int| 0 <= i < 20 implies hex_bytes(s)[i] == bytes[i] by {
            assert(hex_value(s[2 * i]) == Some(bytes[i] as int / 16));
        }
    }
}

/// The number that bytes write in base 256.
spec fn base_256(s: Seq<u8>) -> nat
    decreases s.len(),
{
    if s.len() == 0 {
        0
    } else {
        base_256(s.drop_last()) * 256 + s.last() as nat
    }
}

/// One more than the largest number that so many bytes write.
spec fn numbers_of(len: nat) -> nat
    decreases len,
{
    if len == 0 {
        1
    } else {
        numbers_of((len - 1) as nat) * 256
    }
}

proof fn lemma_base_256_bound(s: Seq<u8>)
    ensures
        base_256(s) < numbers_of(s.len()),
    decreases s.len(),
{
    if s.len() > 0 {
        lemma_base_256_bound(s.drop_last());
    }
}

proof fn lemma_base_256_injective(a: Seq<u8>, b: Seq<u8>)
    requires
        a.len() == b.len(),
        base_256(a) == base_256(b),
    ensures
        a == b,
    decreases a.len(),
{
    if a.len() > 0 {
        lemma_base_256_injective(a.drop_last(), b.drop_last());
        assert(a == a.drop_last().push(a.last()));
        assert(b == b.drop_last().push(b.last()));
    } else {
        assert(a == b);
    }
}

/// There are finitely many ids.
pub proof fn lemma_ids_are_finite(ids: Set<ObjectId>)
    ensures
        ids.finite(),
{
    let named = |n: int| choose|id: ObjectId| #[trigger] base_256(id@) == n;
    let numbers = set_int_range(0, numbers_of(20) as int);
    lemma_int_range(0, numbers_of(20) as int);
    numbers.lemma_map_finite(named);
    let all = numbers.map(named);
    assert forall|id: ObjectId| all.contains(id) by {
        let n = base_256(id@) as int;
        lemma_base_256_bound(id@);
        assert(numbers.contains(n));
        lemma_base_256_injective(id@, named(n)@);
        lemma_same_bytes(id, named(n));
    }
    assert(ids.subset_of(all));
    lemma_set_subset_finite(all, ids);
}

} // verus!
