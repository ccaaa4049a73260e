//! The ids by which Git objects are named.
use vstd::prelude::*;

verus! {

/// The id of a Git object: the twenty bytes of its SHA-1 digest.
#[derive(Clone, Copy, Debug, PartialEq, Eq)]
pub struct ObjectId {
    pub bytes: [u8; 20],
}

/// The lower-case hexadecimal digit of a number below sixteen.
pub open spec fn hex_digit(n: int) -> char {
    if n < 10 {
        ('0' as int + n) as char
    } else {
        ('a' as int + n - 10) as char
    }
}

/// Bytes in lower-case hexadecimal, the high half of each byte first.
pub open spec fn hex(bytes: Seq<u8>) -> Seq<char> {
    Seq::new(
        2 * bytes.len(),
        |i: int|
            hex_digit(
                if i % 2 == 0 {
                    bytes[i / 2] as int / 16
                } else {
                    bytes[i / 2] as int % 16
                },
            ),
    )
}

/// The well-known id that SHA-1 repositories give to the tree without entries.
pub open spec fn empty_tree() -> ObjectId {
    ObjectId {
        bytes: [
            0x4b, 0x82, 0x5d, 0xc6, 0x42, 0xcb, 0x6e, 0xb9, 0xa0, 0x60,
            0xe5, 0x4b, 0xf8, 0xd6, 0x92, 0x88, 0xfb, 0xee, 0x49, 0x04,
        ],
    }
}

/// Calls `gix::ObjectId`'s `Display`, which writes the whole digest in lower-case hexadecimal.
#[verifier::external_body]
fn display_id(bytes: &[u8; 20]) -> (r: String)
    ensures
        r@ == hex(bytes@),
{
    gix::ObjectId::Sha1(*bytes).to_string()
}

/// Calls `gix::ObjectId::empty_tree` for SHA-1, which returns the well-known id of the tree
/// without entries.
#[verifier::external_body]
fn empty_tree_id() -> (r: [u8; 20])
    ensures
        r == empty_tree().bytes,
{
    gix::ObjectId::empty_tree(gix::hash::Kind::Sha1)
        .as_slice()
        .try_into()
        .expect("a SHA-1 digest has twenty bytes")
}

impl ObjectId {
    /// Whether two ids name the same object.
    pub fn same(&self, other: &ObjectId) -> (r: bool)
        ensures
            r == (*self == *other),
    {
        let mut i: usize = 0;
        while i < 20
            invariant
                i <= 20,
                forall|k: int| 0 <= k < i ==> self.bytes[k] == other.bytes[k],
            decreases 20 - i,
        {
            if self.bytes[i] != other.bytes[i] {
                return false;
            }
            i = i + 1;
        }
        assert(self.bytes =~= other.bytes);
        true
    }

    /// The id in hexadecimal, as Git prints it.
    pub fn to_hex(&self) -> (r: String)
        ensures
            r@ == hex(self.bytes@),
    {
        display_id(&self.bytes)
    }

    /// The id of the tree without entries.
    pub fn empty_tree() -> (r: ObjectId)
        ensures
            r == empty_tree(),
    {
        ObjectId { bytes: empty_tree_id() }
    }
}

} // verus!
