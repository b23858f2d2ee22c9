//! What is read from a file is what was written to it.

use vstd::prelude::*;

verus! {

use crate::layout::{
    align64,
    data_bytes,
    data_size,
    data_start,
    entries_bytes,
    entries_size,
    entry_bytes,
    entry_size,
    file_bytes,
    file_size,
    head_bytes,
    magic,
    padded,
    read_dict,
    read_entries,
    read_entry,
    read_head,
    stored_shape,
    u32_at,
    words_at,
    words_bytes,
    DictModel,
    EntryModel,
    HeadModel,
    TensorModel,
};
use crate::machine::{image_read_back, memory_image, memory_words_at};
use vstd::bytes::{spec_u32_to_le_bytes, spec_u64_to_le_bytes};
use vstd::utf8::encode_utf8;

/// The lengths of little-endian numbers.
pub proof fn le_lengths()
    ensures
        forall|x: u32| #[trigger] spec_u32_to_le_bytes(x).len() == 4,
        forall|x: u64| #[trigger] spec_u64_to_le_bytes(x).len() == 8,
{
    vstd::bytes::lemma_auto_spec_u32_to_from_le_bytes();
    vstd::bytes::lemma_auto_spec_u64_to_from_le_bytes();
}

/// An entry has the size that was planned for it.
pub proof fn entry_length(tensor: TensorModel, offset: int)
    ensures
        entry_bytes(tensor, offset).len() == entry_size(tensor),
{
    le_lengths();
}

pub proof fn entries_length(tensors: Seq<TensorModel>, start: int)
    ensures
        entries_bytes(tensors, start).len() == entries_size(tensors),
        entries_size(tensors) >= 0,
    decreases tensors.len(),
{
    if tensors.len() > 0 {
        entries_length(tensors.drop_last(), start);
        entry_length(tensors.last(), start + data_size(tensors.drop_last()));
    }
}

pub proof fn padded_length(bytes: Seq<u8>)
    ensures
        padded(bytes).len() == align64(bytes.len() as int),
        padded(bytes).len() % 64 == 0,
        bytes.len() <= padded(bytes).len() < bytes.len() + 64,
{
}

pub proof fn data_length(tensors: Seq<TensorModel>)
    ensures
        data_bytes(tensors).len() == data_size(tensors),
        data_size(tensors) >= 0,
        data_size(tensors) % 64 == 0,
    decreases tensors.len(),
{
    if tensors.len() > 0 {
        data_length(tensors.drop_last());
        padded_length(memory_image(tensors.last().data));
    }
}

/// A file has the size that was planned for it.
pub proof fn file_length(header_json: Seq<char>, tensors: Seq<TensorModel>)
    ensures
        file_bytes(header_json, tensors).len() == file_size(header_json, tensors),
        head_bytes(header_json).len() == align64(
            16 + encode_utf8(header_json).len() as int,
        ),
{
    le_lengths();
    let start = data_start(header_json, tensors);
    entries_length(tensors, start);
    data_length(tensors);
    padded_length(
        head_bytes(header_json) + spec_u32_to_le_bytes(tensors.len() as u32) + entries_bytes(
            tensors,
            start,
        ),
    );
}

/// The sizes of the first tensors never exceed the size of all.
pub proof fn sizes_of_prefix(tensors: Seq<TensorModel>, k: int)
    requires
        0 <= k <= tensors.len(),
    ensures
        0 <= data_size(tensors.take(k)) <= data_size(tensors),
        0 <= entries_size(tensors.take(k)) <= entries_size(tensors),
        k < tensors.len() ==> {
            &&& data_size(tensors.take(k)) + align64(4 * tensors[k].data.len() as int) <= data_size(
                tensors,
            )
            &&& entries_size(tensors.take(k)) + entry_size(tensors[k]) <= entries_size(tensors)
        },
    decreases tensors.len() - k,
{
    data_length(tensors.take(k));
    entries_length(tensors.take(k), 0);
    if k == tensors.len() {
        assert(tensors.take(k) =~= tensors);
    } else {
        sizes_of_prefix(tensors, k + 1);
        assert(tensors.take(k + 1).drop_last() =~= tensors.take(k));
        assert(tensors.take(k + 1).last() == tensors[k]);
    }
}

/// Little-endian words are read as they were written.
pub proof fn words_read_back(bytes: Seq<u8>, at: int, words: Seq<u32>)
    requires
        0 <= at,
        at + 4 * words.len() <= bytes.len(),
        bytes.subrange(at, at + 4 * words.len()) == words_bytes(words),
    ensures
        words_at(bytes, at, words.len() as int) == words,
{
    vstd::bytes::lemma_auto_spec_u32_to_from_le_bytes();
    let written = bytes.subrange(at, at + 4 * words.len());
    assert forall|i: int| 0 <= i < words.len() implies u32_at(bytes, at + 4 * i) == words[i] by {
        let piece = bytes.subrange(at + 4 * i, at + 4 * i + 4);
        assert forall|j: int| 0 <= j < 4 implies piece[j] == spec_u32_to_le_bytes(words[i])[j] by {
            assert(piece[j] == written[4 * i + j]);
            assert((4 * i + j) / 4 == i);
            assert((4 * i + j) % 4 == j);
        }
        assert(piece =~= spec_u32_to_le_bytes(words[i]));
    }
    assert(words_at(bytes, at, words.len() as int) =~= words);
}

/// Every number of the entry fits the field that stores it.
pub open spec fn storable(tensor: TensorModel) -> bool {
    &&& encode_utf8(tensor.name).len() <= u32::MAX
    &&& tensor.shape.len() <= u32::MAX
    &&& forall|i: int| 0 <= i < tensor.shape.len() ==> (#[trigger] tensor.shape[i]) <= u32::MAX
}

/// An entry is read as it was written.
pub proof fn entry_read_back(
    bytes: Seq<u8>,
    registry: Map<Seq<char>, EntryModel>,
    cursor: int,
    tensor: TensorModel,
    offset: int,
)
    requires
        storable(tensor),
        0 <= cursor,
        cursor + entry_size(tensor) <= bytes.len(),
        bytes.subrange(cursor, cursor + entry_size(tensor)) == entry_bytes(tensor, offset),
        0 <= offset <= usize::MAX,
        4 * tensor.data.len() <= usize::MAX,
    ensures
        read_entry(bytes, registry, cursor) == (DictModel::Read {
            registry: registry.insert(
                tensor.name,
                EntryModel {
                    offset: offset as usize,
                    byte_len: (4 * tensor.data.len()) as usize,
                    shape: tensor.shape,
                },
            ),
            cursor: cursor + entry_size(tensor),
        }),
{
    vstd::bytes::lemma_auto_spec_u32_to_from_le_bytes();
    vstd::bytes::lemma_auto_spec_u64_to_from_le_bytes();
    let e = entry_bytes(tensor, offset);
    let written = bytes.subrange(cursor, cursor + entry_size(tensor));
    let name = encode_utf8(tensor.name);
    let dims = stored_shape(tensor.shape);
    let name_at = cursor + 4;
    let rest = name_at + name.len();
    entry_length(tensor, offset);
    assert(bytes.subrange(cursor, cursor + 4) =~= written.subrange(0, 4));
    assert(e.subrange(0, 4) =~= spec_u32_to_le_bytes(name.len() as u32));
    assert(bytes.subrange(name_at, rest) =~= written.subrange(4, 4 + name.len() as int));
    assert(e.subrange(4, 4 + name.len() as int) =~= name);
    let r = 4 + name.len() as int;
    assert(bytes.subrange(rest, rest + 8) =~= written.subrange(r, r + 8));
    assert(e.subrange(r, r + 8) =~= spec_u64_to_le_bytes(offset as u64));
    assert(bytes.subrange(rest + 8, rest + 8 + 8) =~= written.subrange(r + 8, r + 16));
    assert(e.subrange(r + 8, r + 16) =~= spec_u64_to_le_bytes((4 * tensor.data.len()) as u64));
    assert(bytes.subrange(rest + 16, rest + 16 + 4) =~= written.subrange(r + 16, r + 20));
    assert(e.subrange(r + 16, r + 20) =~= spec_u32_to_le_bytes(tensor.shape.len() as u32));
    assert(bytes.subrange(rest + 20, rest + 20 + 4 * dims.len()) =~= written.subrange(
        r + 20,
        r + 20 + 4 * dims.len(),
    ));
    assert(e.subrange(r + 20, r + 20 + 4 * dims.len()) =~= words_bytes(dims));
    words_read_back(bytes, rest + 20, dims);
    vstd::utf8::encode_utf8_valid_utf8(tensor.name);
    vstd::utf8::encode_utf8_decode_utf8(tensor.name);
    assert(dims.map_values(|dim: u32| dim as usize) =~= tensor.shape);
}

/// Where the entry of the `k`-th tensor lies among the entries.
proof fn entry_in_place(tensors: Seq<TensorModel>, start: int, k: int)
    requires
        0 <= k < tensors.len(),
    ensures
        entries_bytes(tensors, start).subrange(
            entries_size(tensors.take(k)),
            entries_size(tensors.take(k)) + entry_size(tensors[k]),
        ) == entry_bytes(tensors[k], start + data_size(tensors.take(k))),
    decreases tensors.len(),
{
    let init = tensors.drop_last();
    let at = entries_size(tensors.take(k));
    let size = entry_size(tensors[k]);
    entries_length(tensors, start);
    entries_length(init, start);
    sizes_of_prefix(tensors, k);
    entry_length(tensors.last(), start + data_size(init));
    if k == tensors.len() - 1 {
        assert(tensors.take(k) =~= init);
        assert(entries_bytes(tensors, start).subrange(at, at + size) =~= entry_bytes(
            tensors[k],
            start + data_size(init),
        ));
    } else {
        entry_in_place(init, start, k);
        sizes_of_prefix(init, k);
        assert(init.take(k) =~= tensors.take(k));
        assert(entries_bytes(tensors, start).subrange(at, at + size) =~= entries_bytes(
            init,
            start,
        ).subrange(at, at + size));
    }
}

/// Where the data of the `k`-th tensor lies among the data.
proof fn data_in_place(tensors: Seq<TensorModel>, k: int)
    requires
        0 <= k < tensors.len(),
    ensures
        data_bytes(tensors).subrange(
            data_size(tensors.take(k)),
            data_size(tensors.take(k)) + 4 * tensors[k].data.len(),
        ) == memory_image(tensors[k].data),
    decreases tensors.len(),
{
    let init = tensors.drop_last();
    let at = data_size(tensors.take(k));
    let size = 4 * tensors[k].data.len() as int;
    data_length(tensors);
    data_length(init);
    sizes_of_prefix(tensors, k);
    padded_length(memory_image(tensors.last().data));
    if k == tensors.len() - 1 {
        assert(tensors.take(k) =~= init);
        assert(data_bytes(tensors).subrange(at, at + size) =~= memory_image(tensors[k].data));
    } else {
        data_in_place(init, k);
        sizes_of_prefix(init, k);
        assert(init.take(k) =~= tensors.take(k));
        assert(data_bytes(tensors).subrange(at, at + size) =~= data_bytes(init).subrange(
            at,
            at + size,
        ));
    }
}

/// The dictionary of a file that holds `tensors`, the first one's data
/// beginning at `start`. Of two tensors with one name it holds the later one.
pub open spec fn registry_of(tensors: Seq<TensorModel>, start: int) -> Map<Seq<char>, EntryModel>
    decreases tensors.len(),
{
    if tensors.len() == 0 {
        Map::empty()
    } else {
        registry_of(tensors.drop_last(), start).insert(
            tensors.last().name,
            EntryModel {
                offset: (start + data_size(tensors.drop_last())) as usize,
                byte_len: (4 * tensors.last().data.len()) as usize,
                shape: tensors.last().shape,
            },
        )
    }
}

/// The numbers of the file fit their fields, and the file fits in memory.
pub open spec fn file_storable(header_json: Seq<char>, tensors: Seq<TensorModel>) -> bool {
    &&& tensors.len() <= u32::MAX
    &&& file_size(header_json, tensors) <= usize::MAX
    &&& forall|i: int| 0 <= i < tensors.len() ==> storable(#[trigger] tensors[i])
}

/// The head of a written file reads as the header text, with the dictionary
/// behind it.
pub proof fn head_read_back(header_json: Seq<char>, tensors: Seq<TensorModel>)
    requires
        file_storable(header_json, tensors),
    ensures
        read_head(file_bytes(header_json, tensors)) == (HeadModel::Head {
            text: header_json,
            dict_start: head_bytes(header_json).len() as int,
        }),
{
    vstd::bytes::lemma_auto_spec_u64_to_from_le_bytes();
    le_lengths();
    let text = encode_utf8(header_json);
    let file = file_bytes(header_json, tensors);
    let start = data_start(header_json, tensors);
    file_length(header_json, tensors);
    entries_length(tensors, start);
    data_length(tensors);
    let raw = magic() + spec_u64_to_le_bytes(text.len() as u64) + text;
    padded_length(raw);
    padded_length(
        head_bytes(header_json) + spec_u32_to_le_bytes(tensors.len() as u32) + entries_bytes(
            tensors,
            start,
        ),
    );
    assert(file.take(8) =~= magic());
    assert(file.subrange(8, 16) =~= spec_u64_to_le_bytes(text.len() as u64));
    assert(file.subrange(16, 16 + text.len() as int) =~= text);
    vstd::utf8::encode_utf8_valid_utf8(header_json);
    vstd::utf8::encode_utf8_decode_utf8(header_json);
}

proof fn entries_read_back(header_json: Seq<char>, tensors: Seq<TensorModel>, k: nat)
    requires
        file_storable(header_json, tensors),
        k <= tensors.len(),
    ensures
        read_entries(
            file_bytes(header_json, tensors),
            head_bytes(header_json).len() as int + 4,
            k,
        ) == (DictModel::Read {
            registry: registry_of(tensors.take(k as int), data_start(header_json, tensors)),
            cursor: head_bytes(header_json).len() + 4 + entries_size(tensors.take(k as int)),
        }),
    decreases k,
{
    if k > 0 {
        let j = k - 1;
        entries_read_back(header_json, tensors, j as nat);
        let file = file_bytes(header_json, tensors);
        let start = data_start(header_json, tensors);
        let head = head_bytes(header_json);
        let first = head.len() as int + 4;
        let before = tensors.take(j);
        let longer = tensors.take(k as int);
        assert(longer.drop_last() =~= before);
        assert(longer.last() == tensors[j]);
        le_lengths();
        file_length(header_json, tensors);
        entries_length(tensors, start);
        data_length(tensors);
        sizes_of_prefix(tensors, j);
        entry_in_place(tensors, start, j);
        let at = first + entries_size(before);
        let size = entry_size(tensors[j]);
        let unpadded = head + spec_u32_to_le_bytes(tensors.len() as u32) + entries_bytes(
            tensors,
            start,
        );
        padded_length(unpadded);
        assert(file.subrange(at, at + size) =~= entries_bytes(tensors, start).subrange(
            entries_size(before),
            entries_size(before) + size,
        ));
        assert(storable(tensors[j]));
        entry_read_back(
            file,
            registry_of(before, start),
            at,
            tensors[j],
            start + data_size(before),
        );
    } else {
        assert(tensors.take(0) =~= Seq::<TensorModel>::empty());
    }
}

/// The dictionary of a written file holds every tensor name with the offset,
/// length and dimensions that were stored.
pub proof fn dict_read_back(header_json: Seq<char>, tensors: Seq<TensorModel>)
    requires
        file_storable(header_json, tensors),
    ensures
        read_dict(
            file_bytes(header_json, tensors),
            head_bytes(header_json).len() as int,
        ) == (DictModel::Read {
            registry: registry_of(tensors, data_start(header_json, tensors)),
            cursor: head_bytes(header_json).len() + 4 + entries_size(tensors),
        }),
{
    vstd::bytes::lemma_auto_spec_u32_to_from_le_bytes();
    le_lengths();
    let file = file_bytes(header_json, tensors);
    let start = data_start(header_json, tensors);
    let head = head_bytes(header_json);
    file_length(header_json, tensors);
    entries_length(tensors, start);
    data_length(tensors);
    padded_length(
        head + spec_u32_to_le_bytes(tensors.len() as u32) + entries_bytes(tensors, start),
    );
    let n = head.len() as int;
    assert(file.subrange(n, n + 4) =~= spec_u32_to_le_bytes(tensors.len() as u32));
    entries_read_back(header_json, tensors, tensors.len());
    assert(tensors.take(tensors.len() as int) =~= tensors);
}

/// The data of a tensor lies in a written file at a multiple of 64, and reads
/// as the values that were stored.
pub proof fn data_read_back(header_json: Seq<char>, tensors: Seq<TensorModel>, k: int)
    requires
        file_storable(header_json, tensors),
        0 <= k < tensors.len(),
    ensures
        ({
            let offset = data_start(header_json, tensors) + data_size(tensors.take(k));
            &&& 0 <= offset
            &&& offset % 64 == 0
            &&& offset + 4 * tensors[k].data.len() <= file_size(header_json, tensors)
            &&& memory_words_at(
                file_bytes(header_json, tensors),
                offset,
                tensors[k].data.len() as int,
            ) == tensors[k].data
        }),
{
    le_lengths();
    let file = file_bytes(header_json, tensors);
    let start = data_start(header_json, tensors);
    let head = head_bytes(header_json);
    let before = tensors.take(k);
    file_length(header_json, tensors);
    entries_length(tensors, start);
    data_length(tensors);
    data_length(before);
    sizes_of_prefix(tensors, k);
    data_in_place(tensors, k);
    let unpadded = head + spec_u32_to_le_bytes(tensors.len() as u32) + entries_bytes(
        tensors,
        start,
    );
    padded_length(unpadded);
    let offset = start + data_size(before);
    let size = 4 * tensors[k].data.len() as int;
    assert(file.subrange(offset, offset + size) =~= data_bytes(tensors).subrange(
        data_size(before),
        data_size(before) + size,
    ));
    image_read_back(file, offset, tensors[k].data);
}

/// A tensor whose name no later tensor bears is in the dictionary under that
/// name.
pub proof fn registry_holds(tensors: Seq<TensorModel>, start: int, k: int)
    requires
        0 <= k < tensors.len(),
        forall|j: int| k < j < tensors.len() ==> (#[trigger] tensors[j]).name != tensors[k].name,
    ensures
        registry_of(tensors, start).contains_key(tensors[k].name),
        registry_of(tensors, start)[tensors[k].name] == (EntryModel {
            offset: (start + data_size(tensors.take(k))) as usize,
            byte_len: (4 * tensors[k].data.len()) as usize,
            shape: tensors[k].shape,
        }),
    decreases tensors.len(),
{
    let init = tensors.drop_last();
    if k == tensors.len() - 1 {
        assert(tensors.take(k) =~= init);
    } else {
        assert(tensors[tensors.len() - 1].name != tensors[k].name);
        assert(forall|j: int| 0 <= j < init.len() ==> init[j] == tensors[j]);
        registry_holds(init, start, k);
        assert(init.take(k) =~= tensors.take(k));
    }
}

/// A file begins with `SOV_ARCA`, the length of the header text and the text;
/// behind them, at the next multiple of 64, stands the number of tensors, and
/// everything between is zero.
pub proof fn file_begins_with_head(header_json: Seq<char>, tensors: Seq<TensorModel>)
    ensures
        ({
            let file = file_bytes(header_json, tensors);
            let text = encode_utf8(header_json);
            let dict = (16 + text.len() as int + 63) / 64 * 64;
            &&& file.take(8) == encode_utf8("SOV_ARCA"@)
            &&& file.subrange(8, 16) == spec_u64_to_le_bytes(text.len() as u64)
            &&& file.subrange(16, 16 + text.len() as int) == text
            &&& forall|i: int| 16 + text.len() <= i < dict ==> #[trigger] file[i] == 0
            &&& file.subrange(dict, dict + 4) == spec_u32_to_le_bytes(tensors.len() as u32)
            &&& file.len() % 64 == 0
        }),
{
    le_lengths();
    reveal_strlit("SOV_ARCA");
    assert(vstd::utf8::is_ascii_chars("SOV_ARCA"@));
    vstd::utf8::is_ascii_chars_encode_utf8("SOV_ARCA"@);
    assert(encode_utf8("SOV_ARCA"@) =~= magic());
    let text = encode_utf8(header_json);
    let file = file_bytes(header_json, tensors);
    let start = data_start(header_json, tensors);
    file_length(header_json, tensors);
    entries_length(tensors, start);
    data_length(tensors);
    let raw = magic() + spec_u64_to_le_bytes(text.len() as u64) + text;
    padded_length(raw);
    let head = head_bytes(header_json);
    let unpadded = head + spec_u32_to_le_bytes(tensors.len() as u32) + entries_bytes(
        tensors,
        start,
    );
    padded_length(unpadded);
    let dict = head.len() as int;
    assert(file.take(8) =~= magic());
    assert(file.subrange(8, 16) =~= spec_u64_to_le_bytes(text.len() as u64));
    assert(file.subrange(16, 16 + text.len() as int) =~= text);
    assert forall|i: int| 16 + text.len() <= i < dict implies #[trigger] file[i] == 0 by {
        assert(file[i] == head[i]);
    }
    assert(file.subrange(dict, dict + 4) =~= spec_u32_to_le_bytes(tensors.len() as u32));
}

/// An entry is the length of the name, the name, the offset and the length of
/// the data, the number of dimensions and the dimensions, in this order.
pub proof fn entry_fields_in_order(tensor: TensorModel, offset: int)
    ensures
        ({
            let e = entry_bytes(tensor, offset);
            let n = encode_utf8(tensor.name).len() as int;
            &&& e.len() == 24 + n + 4 * tensor.shape.len()
            &&& e.subrange(0, 4) == spec_u32_to_le_bytes(n as u32)
            &&& e.subrange(4, 4 + n) == encode_utf8(tensor.name)
            &&& e.subrange(4 + n, 12 + n) == spec_u64_to_le_bytes(offset as u64)
            &&& e.subrange(12 + n, 20 + n) == spec_u64_to_le_bytes((4 * tensor.data.len()) as u64)
            &&& e.subrange(20 + n, 24 + n) == spec_u32_to_le_bytes(tensor.shape.len() as u32)
            &&& forall|d: int|
                0 <= d < tensor.shape.len() ==> e.subrange(24 + n + 4 * d, 28 + n + 4 * d)
                    == spec_u32_to_le_bytes(#[trigger] tensor.shape[d] as u32)
        }),
{
    le_lengths();
    let e = entry_bytes(tensor, offset);
    let name = encode_utf8(tensor.name);
    let n = name.len() as int;
    let dims = stored_shape(tensor.shape);
    entry_length(tensor, offset);
    assert(e.subrange(0, 4) =~= spec_u32_to_le_bytes(n as u32));
    assert(e.subrange(4, 4 + n) =~= name);
    assert(e.subrange(4 + n, 12 + n) =~= spec_u64_to_le_bytes(offset as u64));
    assert(e.subrange(12 + n, 20 + n) =~= spec_u64_to_le_bytes((4 * tensor.data.len()) as u64));
    assert(e.subrange(20 + n, 24 + n) =~= spec_u32_to_le_bytes(tensor.shape.len() as u32));
    assert forall|d: int| 0 <= d < tensor.shape.len() implies e.subrange(
        24 + n + 4 * d,
        28 + n + 4 * d,
    ) == spec_u32_to_le_bytes(#[trigger] tensor.shape[d] as u32) by {
        let piece = e.subrange(24 + n + 4 * d, 28 + n + 4 * d);
        let word = spec_u32_to_le_bytes(tensor.shape[d] as u32);
        assert(dims[d] == tensor.shape[d] as u32);
        assert forall|j: int| 0 <= j < 4 implies piece[j] == word[j] by {
            assert(piece[j] == words_bytes(dims)[4 * d + j]);
            assert((4 * d + j) / 4 == d);
            assert((4 * d + j) % 4 == j);
        }
        assert(piece =~= word);
    }
}

/// The entries follow the number of tensors without a gap, in the order of the
/// tensors.
pub proof fn entries_follow_each_other(
    header_json: Seq<char>,
    tensors: Seq<TensorModel>,
    k: int,
)
    requires
        0 <= k < tensors.len(),
    ensures
        ({
            let file = file_bytes(header_json, tensors);
            let dict = (16 + encode_utf8(header_json).len() as int + 63) / 64 * 64;
            let at = dict + 4 + entries_size(tensors.take(k));
            let offset = data_start(header_json, tensors) + data_size(tensors.take(k));
            let entry = entry_bytes(tensors[k], offset);
            &&& file.subrange(at, at + entry.len()) == entry
            &&& entries_size(tensors.take(k + 1)) == entries_size(tensors.take(k)) + entry.len()
            &&& entries_size(tensors.take(0)) == 0
        }),
{
    le_lengths();
    let file = file_bytes(header_json, tensors);
    let start = data_start(header_json, tensors);
    let head = head_bytes(header_json);
    let before = tensors.take(k);
    file_length(header_json, tensors);
    entries_length(tensors, start);
    data_length(tensors);
    sizes_of_prefix(tensors, k);
    entry_in_place(tensors, start, k);
    entry_length(tensors[k], start + data_size(before));
    assert(tensors.take(k + 1).drop_last() =~= before);
    assert(tensors.take(k + 1).last() == tensors[k]);
    let unpadded = head + spec_u32_to_le_bytes(tensors.len() as u32) + entries_bytes(
        tensors,
        start,
    );
    padded_length(unpadded);
    let at = head.len() + 4 + entries_size(before);
    let size = entry_size(tensors[k]);
    assert(file.subrange(at, at + size) =~= entries_bytes(tensors, start).subrange(
        entries_size(before),
        entries_size(before) + size,
    ));
}

/// The data of the tensors follows the entries at the next multiple of 64, each
/// tensor at a multiple of 64 and as close to the one before it as that allows,
/// with zeros between.
pub proof fn data_follows_entries(header_json: Seq<char>, tensors: Seq<TensorModel>, k: int)
    requires
        0 <= k < tensors.len(),
    ensures
        ({
            let file = file_bytes(header_json, tensors);
            let dict = (16 + encode_utf8(header_json).len() as int + 63) / 64 * 64;
            let start = data_start(header_json, tensors);
            let offset = start + data_size(tensors.take(k));
            let next = start + data_size(tensors.take(k + 1));
            let size = 4 * tensors[k].data.len() as int;
            &&& start == (dict + 4 + entries_size(tensors) + 63) / 64 * 64
            &&& data_size(tensors.take(0)) == 0
            &&& next == offset + (size + 63) / 64 * 64
            &&& file.subrange(offset, offset + size) == memory_image(tensors[k].data)
            &&& forall|i: int| offset + size <= i < next ==> #[trigger] file[i] == 0
            &&& k == tensors.len() - 1 ==> file.len() == next
        }),
{
    le_lengths();
    let file = file_bytes(header_json, tensors);
    let start = data_start(header_json, tensors);
    let head = head_bytes(header_json);
    let before = tensors.take(k);
    file_length(header_json, tensors);
    entries_length(tensors, start);
    data_length(tensors);
    data_length(before);
    sizes_of_prefix(tensors, k);
    data_in_place(tensors, k);
    padding_in_place(tensors, k);
    assert(tensors.take(k + 1).drop_last() =~= before);
    assert(tensors.take(k + 1).last() == tensors[k]);
    let unpadded = head + spec_u32_to_le_bytes(tensors.len() as u32) + entries_bytes(
        tensors,
        start,
    );
    padded_length(unpadded);
    let offset = start + data_size(before);
    let size = 4 * tensors[k].data.len() as int;
    let next = start + data_size(tensors.take(k + 1));
    assert(file.subrange(offset, offset + size) =~= data_bytes(tensors).subrange(
        data_size(before),
        data_size(before) + size,
    ));
    assert forall|i: int| offset + size <= i < next implies #[trigger] file[i] == 0 by {
        assert(file[i] == data_bytes(tensors)[i - start]);
    }
    if k == tensors.len() - 1 {
        assert(tensors.take(k + 1) =~= tensors);
    }
}

/// Behind the data of the `k`-th tensor stand zeros up to the next one.
proof fn padding_in_place(tensors: Seq<TensorModel>, k: int)
    requires
        0 <= k < tensors.len(),
    ensures
        forall|i: int|
            data_size(tensors.take(k)) + 4 * tensors[k].data.len() <= i < data_size(
                tensors.take(k),
            ) + align64(4 * tensors[k].data.len() as int) ==> #[trigger] data_bytes(tensors)[i] == 0,
    decreases tensors.len(),
{
    let init = tensors.drop_last();
    data_length(tensors);
    data_length(init);
    sizes_of_prefix(tensors, k);
    padded_length(memory_image(tensors.last().data));
    if k == tensors.len() - 1 {
        assert(tensors.take(k) =~= init);
    } else {
        padding_in_place(init, k);
        sizes_of_prefix(init, k);
        assert(init.take(k) =~= tensors.take(k));
        assert forall|i: int|
            data_size(tensors.take(k)) + 4 * tensors[k].data.len() <= i < data_size(
                tensors.take(k),
            ) + align64(4 * tensors[k].data.len() as int) implies #[trigger] data_bytes(tensors)[i]
            == 0 by {
            assert(data_bytes(tensors)[i] == data_bytes(init)[i]);
        }
    }
}

/// Of tensors with one name the dictionary of a file has the last one, and it
/// has no name that no tensor bears.
pub proof fn registry_has_written_names(tensors: Seq<TensorModel>, start: int, name: Seq<char>)
    ensures
        registry_of(tensors, start).contains_key(name) <==> exists|k: int|
            0 <= k < tensors.len() && (#[trigger] tensors[k]).name == name,
    decreases tensors.len(),
{
    if tensors.len() > 0 {
        let init = tensors.drop_last();
        registry_has_written_names(init, start, name);
        if registry_of(tensors, start).contains_key(name) {
            if tensors.last().name == name {
                assert(tensors[tensors.len() - 1].name == name);
            } else {
                let k = choose|k: int| 0 <= k < init.len() && (#[trigger] init[k]).name == name;
                assert(tensors[k].name == name);
            }
        }
        if exists|k: int| 0 <= k < tensors.len() && (#[trigger] tensors[k]).name == name {
            let k = choose|k: int| 0 <= k < tensors.len() && (#[trigger] tensors[k]).name == name;
            if k < init.len() {
                assert(init[k].name == name);
            }
        }
    }
}

/// Between the last entry and the data, or the end of a file without tensors,
/// stand zeros.
pub proof fn zeros_behind_entries(header_json: Seq<char>, tensors: Seq<TensorModel>)
    ensures
        ({
            let file = file_bytes(header_json, tensors);
            let dict = (16 + encode_utf8(header_json).len() as int + 63) / 64 * 64;
            let end = dict + 4 + entries_size(tensors);
            let start = data_start(header_json, tensors);
            &&& start == (end + 63) / 64 * 64
            &&& start <= file.len()
            &&& forall|i: int| end <= i < start ==> #[trigger] file[i] == 0
            &&& tensors.len() == 0 ==> file.len() == start && entries_size(tensors) == 0
        }),
{
    le_lengths();
    let file = file_bytes(header_json, tensors);
    let start = data_start(header_json, tensors);
    let head = head_bytes(header_json);
    file_length(header_json, tensors);
    entries_length(tensors, start);
    data_length(tensors);
    let unpadded = head + spec_u32_to_le_bytes(tensors.len() as u32) + entries_bytes(
        tensors,
        start,
    );
    padded_length(unpadded);
    assert forall|i: int|
        head.len() + 4 + entries_size(tensors) <= i < start implies #[trigger] file[i] == 0 by {
        assert(file[i] == padded(unpadded)[i]);
    }
}

} // verus!
