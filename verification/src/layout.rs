//! The byte layout of a `.sovereign` file.
//!
//! A file is a head, a dictionary and the tensor data, each padded with zeros
//! to a multiple of 64 bytes:
//!
//! - head: the magic bytes, the length of the header text (`u64`), the text
//! - dictionary: the number of entries (`u32`), then for each tensor the length
//!   of its name (`u32`), the name, the offset of its data in the file (`u64`),
//!   the length of the data in bytes (`u64`), the number of dimensions (`u32`)
//!   and the dimensions (`u32` each)
//! - data: the values of each tensor as they lie in memory, four bytes each,
//!   every tensor padded
//!
//! The numbers of head and dictionary are little-endian; the values of the
//! tensors are in the byte order of the machine.

use vstd::prelude::*;

verus! {

use crate::machine::memory_image;
use vstd::bytes::{
    spec_u32_from_le_bytes,
    spec_u32_to_le_bytes,
    spec_u64_from_le_bytes,
    spec_u64_to_le_bytes,
};
use vstd::utf8::{decode_utf8, encode_utf8, valid_utf8};

/// A tensor to be stored: its name, the bit patterns of its values, and its
/// dimensions.
pub struct TensorModel {
    pub name: Seq<char>,
    pub data: Seq<u32>,
    pub shape: Seq<usize>,
}

/// What the dictionary says of a tensor: where its data begins in the file, how
/// many bytes it has, and its dimensions.
#[verifier::ext_equal]
pub struct EntryModel {
    pub offset: usize,
    pub byte_len: usize,
    pub shape: Seq<usize>,
}

/// The smallest multiple of 64 that is not below `n`.
pub open spec fn align64(n: int) -> int {
    (n + 63) / 64 * 64
}

pub open spec fn zeros(n: int) -> Seq<u8> {
    Seq::new(n as nat, |i: int| 0u8)
}

/// `bytes` with zeros up to a multiple of 64.
pub open spec fn padded(bytes: Seq<u8>) -> Seq<u8> {
    bytes + zeros(align64(bytes.len() as int) - bytes.len())
}

/// The little-endian bytes of 32-bit words.
pub open spec fn words_bytes(words: Seq<u32>) -> Seq<u8> {
    Seq::new(4 * words.len(), |i: int| spec_u32_to_le_bytes(words[i / 4])[i % 4])
}

/// The magic bytes `SOV_ARCA`.
pub open spec fn magic() -> Seq<u8> {
    seq![0x53u8, 0x4f, 0x56, 0x5f, 0x41, 0x52, 0x43, 0x41]
}

/// Magic, length and text of the header.
pub open spec fn head_bytes(header_json: Seq<char>) -> Seq<u8> {
    padded(
        magic() + spec_u64_to_le_bytes(encode_utf8(header_json).len() as u64) + encode_utf8(
            header_json,
        ),
    )
}

/// The dimensions as they are stored.
pub open spec fn stored_shape(shape: Seq<usize>) -> Seq<u32> {
    shape.map_values(|dim: usize| dim as u32)
}

pub open spec fn entry_bytes(tensor: TensorModel, offset: int) -> Seq<u8> {
    spec_u32_to_le_bytes(encode_utf8(tensor.name).len() as u32) + encode_utf8(tensor.name)
        + spec_u64_to_le_bytes(offset as u64) + spec_u64_to_le_bytes(
        (4 * tensor.data.len()) as u64,
    ) + spec_u32_to_le_bytes(tensor.shape.len() as u32) + words_bytes(stored_shape(tensor.shape))
}

pub open spec fn entry_size(tensor: TensorModel) -> int {
    (24 + encode_utf8(tensor.name).len() + 4 * tensor.shape.len()) as int
}

/// The size of all entries.
pub open spec fn entries_size(tensors: Seq<TensorModel>) -> int
    decreases tensors.len(),
{
    if tensors.len() == 0 {
        0
    } else {
        entries_size(tensors.drop_last()) + entry_size(tensors.last())
    }
}

/// The size of the padded data of all tensors.
pub open spec fn data_size(tensors: Seq<TensorModel>) -> int
    decreases tensors.len(),
{
    if tensors.len() == 0 {
        0
    } else {
        data_size(tensors.drop_last()) + align64(4 * tensors.last().data.len() as int)
    }
}

/// The dictionary entries, the data of the first tensor beginning at
/// `data_start`.
pub open spec fn entries_bytes(tensors: Seq<TensorModel>, data_start: int) -> Seq<u8>
    decreases tensors.len(),
{
    if tensors.len() == 0 {
        Seq::empty()
    } else {
        entries_bytes(tensors.drop_last(), data_start) + entry_bytes(
            tensors.last(),
            data_start + data_size(tensors.drop_last()),
        )
    }
}

/// The padded data of all tensors.
pub open spec fn data_bytes(tensors: Seq<TensorModel>) -> Seq<u8>
    decreases tensors.len(),
{
    if tensors.len() == 0 {
        Seq::empty()
    } else {
        data_bytes(tensors.drop_last()) + padded(memory_image(tensors.last().data))
    }
}

/// Where the tensor data begins.
pub open spec fn data_start(header_json: Seq<char>, tensors: Seq<TensorModel>) -> int {
    align64(head_bytes(header_json).len() + 4 + entries_size(tensors))
}

/// The whole file.
pub open spec fn file_bytes(header_json: Seq<char>, tensors: Seq<TensorModel>) -> Seq<u8> {
    padded(
        head_bytes(header_json) + spec_u32_to_le_bytes(tensors.len() as u32) + entries_bytes(
            tensors,
            data_start(header_json, tensors),
        ),
    ) + data_bytes(tensors)
}

/// The length of the whole file.
pub open spec fn file_size(header_json: Seq<char>, tensors: Seq<TensorModel>) -> int {
    data_start(header_json, tensors) + data_size(tensors)
}

// ---------------------------------------------------------------- reading

pub open spec fn u32_at(bytes: Seq<u8>, at: int) -> u32 {
    spec_u32_from_le_bytes(bytes.subrange(at, at + 4))
}

pub open spec fn u64_at(bytes: Seq<u8>, at: int) -> u64 {
    spec_u64_from_le_bytes(bytes.subrange(at, at + 8))
}

/// The little-endian words that lie in `bytes` from `at` on.
pub open spec fn words_at(bytes: Seq<u8>, at: int, n: int) -> Seq<u32> {
    Seq::new(n as nat, |i: int| u32_at(bytes, at + 4 * i))
}

/// What reading the head of a file finds.
pub enum HeadModel {
    /// The file ends within the head.
    CutShort,
    /// The file begins with other bytes.
    BadMagic,
    /// The header text is not UTF-8.
    BadText,
    Head { text: Seq<char>, dict_start: int },
}

pub open spec fn read_head(bytes: Seq<u8>) -> HeadModel {
    if bytes.len() < 8 {
        HeadModel::CutShort
    } else if bytes.take(8) != magic() {
        HeadModel::BadMagic
    } else if bytes.len() < 16 {
        HeadModel::CutShort
    } else {
        let n = u64_at(bytes, 8) as usize;
        if 16 + n > bytes.len() {
            HeadModel::CutShort
        } else if !valid_utf8(bytes.subrange(16, 16 + n)) {
            HeadModel::BadText
        } else {
            HeadModel::Head {
                text: decode_utf8(bytes.subrange(16, 16 + n)),
                dict_start: align64(16 + n),
            }
        }
    }
}

/// What reading the dictionary finds.
pub enum DictModel {
    /// The file ends within the dictionary.
    CutShort,
    /// A name is not UTF-8.
    BadName,
    /// The entries read so far, and where the next one begins.
    Read { registry: Map<Seq<char>, EntryModel>, cursor: int },
}

/// The dictionary after one more entry, which begins at `cursor`.
pub open spec fn read_entry(
    bytes: Seq<u8>,
    registry: Map<Seq<char>, EntryModel>,
    cursor: int,
) -> DictModel {
    let name_at = cursor + 4;
    let name_len = u32_at(bytes, cursor) as int;
    let rest = name_at + name_len;
    let name = bytes.subrange(name_at, rest);
    let shape_len = u32_at(bytes, rest + 16) as int;
    if name_at > bytes.len() || rest > bytes.len() {
        DictModel::CutShort
    } else if !valid_utf8(name) {
        DictModel::BadName
    } else if rest + 20 > bytes.len() || rest + 20 + 4 * shape_len > bytes.len() {
        DictModel::CutShort
    } else {
        DictModel::Read {
            registry: registry.insert(
                decode_utf8(name),
                EntryModel {
                    offset: u64_at(bytes, rest) as usize,
                    byte_len: u64_at(bytes, rest + 8) as usize,
                    shape: words_at(bytes, rest + 20, shape_len).map_values(
                        |dim: u32| dim as usize,
                    ),
                },
            ),
            cursor: rest + 20 + 4 * shape_len,
        }
    }
}

/// The dictionary after `n` entries from `start` on.
pub open spec fn read_entries(bytes: Seq<u8>, start: int, n: nat) -> DictModel
    decreases n,
{
    if n == 0 {
        DictModel::Read { registry: Map::empty(), cursor: start }
    } else {
        match read_entries(bytes, start, (n - 1) as nat) {
            DictModel::Read { registry, cursor } => read_entry(bytes, registry, cursor),
            failed => failed,
        }
    }
}

/// The dictionary at `start`; a file that ends there has an empty one.
pub open spec fn read_dict(bytes: Seq<u8>, start: int) -> DictModel {
    if start + 4 > bytes.len() {
        DictModel::Read { registry: Map::empty(), cursor: start }
    } else {
        read_entries(bytes, start + 4, u32_at(bytes, start) as nat)
    }
}

} // verus!
