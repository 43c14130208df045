//! SHA-256 digests, hexadecimal text and Merkle roots.

use crate::text;
use vstd::prelude::*;

verus! {

/// The SHA-256 digest of `data`, as `sha2::Sha256` computes it.
pub uninterp spec fn sha256_digest(data: Seq<u8>) -> Seq<u8>;

/// Whether `data` is short enough for its length in bits to fit in a `u64`.
pub open spec fn hashable(data: Seq<u8>) -> bool {
    data.len() * 8 <= u64::MAX
}

/// Hashes `data` with `sha2::Sha256`: one `update` on a fresh hasher, then `finalize`.
///
/// The digest is 32 bytes long and depends on the data alone; which bytes they are is left to the
/// name `sha256_digest`. The hasher counts the data in bits in a `u64`, hence the bound.
#[verifier::external_body]
pub(crate) fn sha256(data: &[u8]) -> (out: Vec<u8>)
    requires
        hashable(data@),
    ensures
        out@ == sha256_digest(data@),
        out@.len() == 32,
{
    let mut hasher = <sha2::Sha256 as sha2::Digest>::new();
    sha2::Digest::update(&mut hasher, data);
    sha2::Digest::finalize(hasher).to_vec()
}

/// The lower-case hexadecimal digit for `n`.
pub open spec fn nibble_char(n: u8) -> char {
    if n < 10 {
        (48 + n) as char
    } else {
        (87 + n) as char
    }
}

/// `data` in lower-case hexadecimal, two digits for each byte, the high one first.
pub open spec fn hex_text(data: Seq<u8>) -> Seq<char> {
    Seq::new(
        data.len() * 2,
        |i: int|
            if i % 2 == 0 {
                nibble_char(data[i / 2] / 16)
            } else {
                nibble_char(data[i / 2] % 16)
            },
    )
}

/// Writes bytes in lower-case hexadecimal with `hex::encode`.
///
/// The result is exactly `hex_text` of the bytes. It must fit in one allocation, hence the bound.
#[verifier::external_body]
pub(crate) fn hex_encode(data: &[u8]) -> (out: String)
    requires
        data@.len() * 2 <= isize::MAX,
    ensures
        out@ == hex_text(data@),
{
    hex::encode(data)
}

/// Why a text is not the hexadecimal form of any bytes.
#[derive(Debug, Clone, Copy, PartialEq, Eq)]
pub enum HexError {
    /// The byte at `index` of the text, read as the character `c`, is no hexadecimal digit.
    InvalidHexCharacter { c: char, index: usize },
    /// The text has an odd number of bytes.
    OddLength,
    /// The text is too long or too short for a buffer of fixed size.
    InvalidStringLength,
}

/// The value of a hexadecimal digit in either case.
pub open spec fn nibble_value(b: u8) -> Option<u8> {
    if 48 <= b <= 57 {
        Some((b - 48) as u8)
    } else if 65 <= b <= 70 {
        Some((b - 55) as u8)
    } else if 97 <= b <= 102 {
        Some((b - 87) as u8)
    } else {
        None
    }
}

/// Whether every byte is a hexadecimal digit.
pub open spec fn all_nibbles(bytes: Seq<u8>) -> bool {
    forall|i: int| 0 <= i < bytes.len() ==> nibble_value(#[trigger] bytes[i]) is Some
}

/// The position of the first byte that is no hexadecimal digit.
pub open spec fn first_bad(bytes: Seq<u8>) -> int
    decreases bytes.len(),
{
    if bytes.len() == 0 || nibble_value(bytes[0]) is None {
        0
    } else {
        1 + first_bad(bytes.skip(1))
    }
}

/// What the UTF-8 bytes of `text` say when they are read as hexadecimal digits of either case.
pub open spec fn hex_bytes(text: Seq<char>) -> Result<Seq<u8>, HexError> {
    let bytes = vstd::utf8::encode_utf8(text);
    if bytes.len() % 2 != 0 {
        Err(HexError::OddLength)
    } else if all_nibbles(bytes) {
        Ok(
            Seq::new(
                bytes.len() / 2,
                |i: int|
                    (nibble_value(bytes[2 * i])->0 * 16 + nibble_value(bytes[2 * i + 1])->0) as u8,
            ),
        )
    } else {
        let at = first_bad(bytes);
        Err(HexError::InvalidHexCharacter { c: bytes[at] as char, index: at as usize })
    }
}

/// Reads hexadecimal text with `hex::decode`.
///
/// Digits of both cases are accepted. A text of an odd number of bytes is refused first; after
/// that, the first byte that is no digit is reported with its position. `hex_bytes` says all of
/// this exactly.
#[verifier::external_body]
pub(crate) fn hex_decode(text: &str) -> (out: Result<Vec<u8>, HexError>)
    ensures
        match out {
            Ok(data) => hex_bytes(text@) == Ok::<Seq<u8>, HexError>(data@),
            Err(e) => hex_bytes(text@) == Err::<Seq<u8>, HexError>(e),
        },
{
    match hex::decode(text) {
        Ok(data) => Ok(data),
        Err(hex::FromHexError::InvalidHexCharacter { c, index }) => {
            Err(HexError::InvalidHexCharacter { c, index })
        },
        Err(hex::FromHexError::OddLength) => Err(HexError::OddLength),
        Err(hex::FromHexError::InvalidStringLength) => Err(HexError::InvalidStringLength),
    }
}

/// A character between quotes, escaped where need be, as the `Debug` of `char` writes it.
pub uninterp spec fn quoted_char(c: char) -> Seq<char>;

/// The message for an error.
pub open spec fn hex_error_text(error: HexError) -> Seq<char> {
    match error {
        HexError::InvalidHexCharacter { c, index } => "Invalid character "@ + quoted_char(c)
            + " at position "@ + text::decimal(index as nat),
        HexError::OddLength => "Odd number of digits"@,
        HexError::InvalidStringLength => "Invalid string length"@,
    }
}

/// The message of an error, from the `Display` of `hex::FromHexError`.
///
/// The texts are stated, and the position stands in them in decimal. How Rust quotes the invalid
/// character, with its escapes, is left to the name `quoted_char`.
#[verifier::external_body]
pub(crate) fn hex_error_message(error: HexError) -> (out: String)
    ensures
        out@ == hex_error_text(error),
        error matches HexError::InvalidHexCharacter { c, index } ==> out@ == "Invalid character "@
            + quoted_char(c) + " at position "@ + text::decimal(index as nat),
{
    let outside = match error {
        HexError::InvalidHexCharacter { c, index } => {
            hex::FromHexError::InvalidHexCharacter { c, index }
        },
        HexError::OddLength => hex::FromHexError::OddLength,
        HexError::InvalidStringLength => hex::FromHexError::InvalidStringLength,
    };
    outside.to_string()
}

/// The nodes above a layer of a Merkle tree: two neighbours give the SHA-256 of their bytes
/// together, and a last node without a neighbour moves up unchanged.
pub open spec fn parent_layer(nodes: Seq<Seq<u8>>) -> Seq<Seq<u8>> {
    Seq::new(
        (nodes.len() + 1) / 2,
        |i: int|
            if 2 * i + 1 < nodes.len() {
                sha256_digest(nodes[2 * i] + nodes[2 * i + 1])
            } else {
                nodes[2 * i]
            },
    )
}

/// The root of the SHA-256 Merkle tree over `leaves`: the one node that is left when layer is put
/// upon layer.
pub open spec fn merkle_root(leaves: Seq<Seq<u8>>) -> Option<Seq<u8>>
    decreases leaves.len(),
{
    if leaves.len() == 0 {
        None
    } else if leaves.len() == 1 {
        Some(leaves[0])
    } else {
        merkle_root(parent_layer(leaves))
    }
}

/// There is a root exactly where there is a leaf.
pub proof fn lemma_root_exists(leaves: Seq<Seq<u8>>)
    ensures
        merkle_root(leaves) is None <==> leaves.len() == 0,
    decreases leaves.len(),
{
    if leaves.len() > 1 {
        lemma_root_exists(parent_layer(leaves));
    }
}

/// The bytes of each leaf.
pub open spec fn leaf_bytes(leaves: Seq<[u8; 32]>) -> Seq<Seq<u8>> {
    leaves.map_values(|l: [u8; 32]| l@)
}

/// Builds a tree with `rs_merkle::MerkleTree::<Sha256>::from_leaves` and takes its `root`.
///
/// The root is exactly `merkle_root` of the leaves, in their order. The tree hashes with the same
/// SHA-256 as `sha256` does, so its nodes are stated over `sha256_digest`.
#[verifier::external_body]
pub(crate) fn merkle_tree_root(leaves: &[[u8; 32]]) -> (out: Option<[u8; 32]>)
    ensures
        match out {
            Some(root) => merkle_root(leaf_bytes(leaves@)) == Some(root@),
            None => merkle_root(leaf_bytes(leaves@)) is None,
        },
{
    rs_merkle::MerkleTree::<rs_merkle::algorithms::Sha256>::from_leaves(leaves).root()
}

/// Reading the hexadecimal form of bytes gives the bytes back.
pub proof fn law_hex_comes_back(data: Seq<u8>)
    ensures
        hex_bytes(hex_text(data)) == Ok::<Seq<u8>, HexError>(data),
{
    let text = hex_text(data);
    let bytes = vstd::utf8::encode_utf8(text);
    assert(vstd::utf8::is_ascii_chars(text));
    vstd::utf8::is_ascii_chars_encode_utf8(text);
    assert forall|i: int| 0 <= i < bytes.len() implies nibble_value(#[trigger] bytes[i]) == Some(
        if i % 2 == 0 {
            (data[i / 2] / 16) as u8
        } else {
            (data[i / 2] % 16) as u8
        },
    ) by {
        assert(bytes[i] == text[i] as u8);
    }
    assert(all_nibbles(bytes));
    let read = hex_bytes(text)->Ok_0;
    assert forall|i: int| 0 <= i < data.len() implies #[trigger] read[i] == data[i] by {
        assert(nibble_value(bytes[2 * i]) == Some((data[i] / 16) as u8));
        assert(nibble_value(bytes[2 * i + 1]) == Some((data[i] % 16) as u8));
    }
    assert(read =~= data);
}

/// Different bytes have different hexadecimal forms.
pub proof fn law_hex_tells_bytes_apart(a: Seq<u8>, b: Seq<u8>)
    ensures
        hex_text(a) == hex_text(b) <==> a == b,
{
    law_hex_comes_back(a);
    law_hex_comes_back(b);
}

} // verus!
