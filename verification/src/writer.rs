//! Building the image of a model file.

use crate::machine::memory_bytes;
use crate::sovereign::{align_up, ALIGN, MAGIC};
use vstd::bytes::{u32_to_le_bytes, u64_to_le_bytes};
use vstd::prelude::*;

verus! {

use crate::layout::{
    align64,
    data_bytes,
    data_size,
    data_start,
    entries_bytes,
    entries_size,
    entry_bytes,
    entry_size,
    file_bytes,
    file_size,
    head_bytes,
    magic,
    padded,
    stored_shape,
    words_bytes,
    zeros,
    TensorModel,
};
use crate::machine::memory_image;
use crate::round_trip::{
    data_length,
    entries_length,
    file_length,
    le_lengths,
    padded_length,
    sizes_of_prefix,
};
use vstd::bytes::{spec_u32_to_le_bytes, spec_u64_to_le_bytes};

/// A tensor to be stored: name, bit patterns of the values, dimensions.
pub type TensorRecord<'a> = (&'a str, &'a [u32], &'a [usize]);

/// What a record stands for.
pub open spec fn model_of(record: TensorRecord) -> TensorModel {
    TensorModel { name: record.0@, data: record.1@, shape: record.2@ }
}

/// What records stand for.
pub open spec fn models_of(records: Seq<TensorRecord>) -> Seq<TensorModel> {
    records.map_values(|r: TensorRecord| model_of(r))
}

/// Append `bytes`.
fn put(buf: &mut Vec<u8>, bytes: &[u8])
    ensures
        final(buf)@ == old(buf)@ + bytes@,
{
    buf.extend_from_slice(bytes);
    assert(buf@ =~= old(buf)@ + bytes@);
}

/// Append the little-endian bytes of a word.
fn put_u32(buf: &mut Vec<u8>, x: u32)
    ensures
        final(buf)@ == old(buf)@ + spec_u32_to_le_bytes(x),
{
    let bytes = u32_to_le_bytes(x);
    put(buf, &bytes);
}

fn put_u64(buf: &mut Vec<u8>, x: u64)
    ensures
        final(buf)@ == old(buf)@ + spec_u64_to_le_bytes(x),
{
    let bytes = u64_to_le_bytes(x);
    put(buf, &bytes);
}

/// Append zeros up to the next multiple of 64.
fn pad(buf: &mut Vec<u8>)
    requires
        align64(old(buf)@.len() as int) <= usize::MAX,
    ensures
        final(buf)@ == padded(old(buf)@),
{
    let ghost start = buf@;
    while buf.len() % ALIGN != 0
        invariant
            start.len() <= buf@.len() <= align64(start.len() as int),
            buf@ == start + zeros(buf@.len() - start.len()),
        decreases align64(start.len() as int) - buf@.len(),
    {
        let ghost before = buf@;
        buf.push(0);
        assert(buf@ =~= start + zeros(buf@.len() - start.len()));
    }
    assert(buf@.len() == align64(start.len() as int));
}

/// Append words as they lie in memory.
fn put_words(buf: &mut Vec<u8>, words: &[u32])
    ensures
        final(buf)@ == old(buf)@ + memory_image(words@),
{
    put(buf, memory_bytes(words));
}

proof fn words_bytes_push(words: Seq<u32>, i: int)
    requires
        0 <= i < words.len(),
    ensures
        words_bytes(words.take(i + 1)) == words_bytes(words.take(i)) + spec_u32_to_le_bytes(
            words[i],
        ),
{
    le_lengths();
    let longer = words_bytes(words.take(i + 1));
    let shorter = words_bytes(words.take(i));
    assert forall|j: int| 0 <= j < longer.len() implies longer[j] == (shorter
        + spec_u32_to_le_bytes(words[i]))[j] by {
        if j < shorter.len() {
            assert(words.take(i + 1)[j / 4] == words.take(i)[j / 4]);
        } else {
            assert(j / 4 == i);
            assert(j % 4 == j - 4 * i);
        }
    }
    assert(longer =~= shorter + spec_u32_to_le_bytes(words[i]));
}

/// Append dimensions, 32 bits each.
fn put_dims(buf: &mut Vec<u8>, dims: &[usize])
    ensures
        final(buf)@ == old(buf)@ + words_bytes(stored_shape(dims@)),
{
    proof {
        le_lengths();
    }
    let ghost start = buf@;
    let ghost words = stored_shape(dims@);
    let mut i: usize = 0;
    assert(start + words_bytes(words.take(0)) =~= start);
    while i < dims.len()
        invariant
            i <= dims.len(),
            words == stored_shape(dims@),
            buf@ == start + words_bytes(words.take(i as int)),
        decreases dims.len() - i,
    {
        #[verifier::truncate]
        let word: u32 = dims[i] as u32;
        put_u32(buf, word);
        proof {
            assert(words[i as int] == word);
            words_bytes_push(words, i as int);
            assert(buf@ =~= start + words_bytes(words.take(i + 1)));
        }
        i += 1;
    }
    assert(words.take(i as int) =~= words);
}

/// The size of the dictionary entries.
fn total_entries_size(tensors: &[TensorRecord]) -> (size: usize)
    requires
        entries_size(models_of(tensors@)) <= usize::MAX,
    ensures
        size == entries_size(models_of(tensors@)),
{
    let ghost models = models_of(tensors@);
    let mut size: usize = 0;
    let mut i: usize = 0;
    while i < tensors.len()
        invariant
            i <= tensors.len(),
            models == models_of(tensors@),
            entries_size(models) <= usize::MAX,
            size == entries_size(models.take(i as int)),
        decreases tensors.len() - i,
    {
        proof {
            sizes_of_prefix(models, i as int);
            assert(models.take(i + 1).drop_last() =~= models.take(i as int));
            assert(models.take(i + 1).last() == models[i as int]);
        }
        let name_len: usize = tensors[i].0.as_bytes().len();
        let shape_len: usize = tensors[i].2.len();
        assert(24 + name_len + 4 * shape_len == entry_size(models[i as int]));
        size += 4 + name_len + 8 + 8 + 4 + shape_len * 4;
        i += 1;
    }
    assert(models.take(i as int) =~= models);
    size
}

/// Append the dictionary entry of a tensor.
fn put_entry(buf: &mut Vec<u8>, tensor: &TensorRecord, offset: usize)
    requires
        4 * tensor.1@.len() <= usize::MAX,
    ensures
        final(buf)@ == old(buf)@ + entry_bytes(model_of(*tensor), offset as int),
{
    let name = tensor.0.as_bytes();
    let byte_len: usize = tensor.1.len() * 4;
    #[verifier::truncate]
    let name_len: u32 = name.len() as u32;
    #[verifier::truncate]
    let shape_len: u32 = tensor.2.len() as u32;
    put_u32(buf, name_len);
    put(buf, name);
    put_u64(buf, offset as u64);
    put_u64(buf, byte_len as u64);
    put_u32(buf, shape_len);
    put_dims(buf, tensor.2);
    assert(buf@ =~= old(buf)@ + entry_bytes(model_of(*tensor), offset as int));
}

/// Append the dictionary entries of all tensors, the data of the first one
/// beginning at `start`.
fn put_entries(buf: &mut Vec<u8>, tensors: &[TensorRecord], start: usize)
    requires
        start + data_size(models_of(tensors@)) <= usize::MAX,
    ensures
        final(buf)@ == old(buf)@ + entries_bytes(models_of(tensors@), start as int),
{
    let ghost models = models_of(tensors@);
    let ghost first = buf@;
    let mut cursor: usize = start;
    let mut i: usize = 0;
    assert(first + entries_bytes(models.take(0), start as int) =~= first);
    while i < tensors.len()
        invariant
            i <= tensors.len(),
            models == models_of(tensors@),
            start + data_size(models) <= usize::MAX,
            cursor == start + data_size(models.take(i as int)),
            buf@ == first + entries_bytes(models.take(i as int), start as int),
        decreases tensors.len() - i,
    {
        proof {
            sizes_of_prefix(models, i as int);
            assert(models.take(i + 1).drop_last() =~= models.take(i as int));
            assert(models.take(i + 1).last() == models[i as int]);
            padded_length(memory_image(models[i as int].data));
        }
        put_entry(buf, &tensors[i], cursor);
        assert(buf@ =~= first + entries_bytes(models.take(i + 1), start as int));
        cursor += align_up(tensors[i].1.len() * 4, ALIGN);
        i += 1;
    }
    assert(models.take(i as int) =~= models);
}

/// Append the padded data of all tensors.
fn put_data(buf: &mut Vec<u8>, tensors: &[TensorRecord])
    requires
        old(buf)@.len() % 64 == 0,
        old(buf)@.len() + data_size(models_of(tensors@)) <= usize::MAX,
    ensures
        final(buf)@ == old(buf)@ + data_bytes(models_of(tensors@)),
{
    let ghost models = models_of(tensors@);
    let ghost first = buf@;
    let mut i: usize = 0;
    assert(first + data_bytes(models.take(0)) =~= first);
    while i < tensors.len()
        invariant
            i <= tensors.len(),
            models == models_of(tensors@),
            first.len() % 64 == 0,
            first.len() + data_size(models) <= usize::MAX,
            buf@ == first + data_bytes(models.take(i as int)),
        decreases tensors.len() - i,
    {
        let ghost before = buf@;
        let ghost words = memory_image(models[i as int].data);
        proof {
            sizes_of_prefix(models, i as int);
            data_length(models.take(i as int));
            padded_length(words);
            assert(models.take(i + 1).drop_last() =~= models.take(i as int));
            assert(models.take(i + 1).last() == models[i as int]);
        }
        put_words(buf, tensors[i].1);
        assert(align64(buf@.len() as int) == before.len() + align64(words.len() as int));
        pad(buf);
        assert(padded(before + words) =~= before + padded(words));
        assert(buf@ =~= first + data_bytes(models.take(i + 1)));
        i += 1;
    }
    assert(models.take(i as int) =~= models);
}

/// The image of a file with the given header text and tensors.
pub fn file_image(header_json: &str, tensors: &[TensorRecord]) -> (image: Vec<u8>)
    requires
        file_size(header_json@, models_of(tensors@)) <= usize::MAX,
    ensures
        image@ == file_bytes(header_json@, models_of(tensors@)),
{
    let ghost models = models_of(tensors@);
    let ghost start_model = data_start(header_json@, models);
    proof {
        le_lengths();
        file_length(header_json@, models);
        data_length(models);
        entries_length(models, start_model);
    }
    let mut buf: Vec<u8> = Vec::new();
    put(&mut buf, &MAGIC);
    assert(buf@ =~= magic());
    let text = header_json.as_bytes();
    put_u64(&mut buf, text.len() as u64);
    put(&mut buf, text);
    pad(&mut buf);
    assert(buf@ == head_bytes(header_json@));
    let dict_end: usize = buf.len() + 4 + total_entries_size(tensors);
    let start: usize = align_up(dict_end, ALIGN);
    #[verifier::truncate]
    let count: u32 = tensors.len() as u32;
    put_u32(&mut buf, count);
    put_entries(&mut buf, tensors, start);
    pad(&mut buf);
    proof {
        padded_length(
            head_bytes(header_json@) + spec_u32_to_le_bytes(models.len() as u32) + entries_bytes(
                models,
                start_model,
            ),
        );
    }
    put_data(&mut buf, tensors);
    buf
}

/// A record stands for its name, the bit patterns of its values and its
/// dimensions.
pub proof fn records_stand_for_tensors(records: Seq<TensorRecord>, i: int)
    requires
        0 <= i < records.len(),
    ensures
        models_of(records).len() == records.len(),
        models_of(records)[i].name == records[i].0@,
        models_of(records)[i].data == records[i].1@,
        models_of(records)[i].shape == records[i].2@,
{
}

} // verus!
