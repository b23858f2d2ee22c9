//! What both GPU contexts share: how shaders see their buffers, how many
//! workgroups cover a task, and how values are packed for upload.

use crate::machine::memory_bytes;
use vstd::prelude::*;

verus! {

use crate::machine::{memory_image, memory_words_at};

/// The largest buffer that is asked of the device.
pub const MAX_BUFFER_BYTES: usize = 268_435_456;

/// How a shader sees a buffer.
#[derive(Debug, Clone, Copy, PartialEq, Eq, Structural)]
pub enum BindingKind {
    ReadOnly,
    ReadWrite,
    Uniform,
}

/// What a buffer is made for.
#[derive(Debug, Clone, Copy, PartialEq, Eq, Structural)]
pub enum Usage {
    Storage,
    Uniform,
}

/// What a buffer holds at first.
#[derive(Debug, Clone, Copy, PartialEq, Eq, Structural)]
pub enum Start {
    /// So many zero words.
    Zeros { words: usize },
    /// A single word.
    Word { word: u32 },
    /// Weights of the system.
    Weights,
}

/// A buffer made for `usage` can be bound where the shader expects `kind`.
pub open spec fn binds_as(usage: Usage, kind: BindingKind) -> bool {
    usage is Uniform <==> kind is Uniform
}

/// How many workgroups a pass starts along each axis.
#[derive(Debug, Clone, Copy, PartialEq, Eq, Structural)]
pub struct Groups {
    pub x: u32,
    pub y: u32,
    pub z: u32,
}

/// The number of workgroups of `size` invocations that cover `items` items.
pub fn group_count(items: u32, size: u32) -> (n: u32)
    requires
        size > 0,
        items + size - 1 <= u32::MAX,
    ensures
        n == (items + size - 1) as int / size as int,
{
    (items + (size - 1)) / size
}

/// The workgroups cover every item, and one fewer would not.
pub proof fn groups_cover(items: int, size: int)
    requires
        items >= 0,
        size > 0,
    ensures
        ({
            let n = (items + size - 1) / size;
            &&& n * size >= items
            &&& items > 0 ==> (n - 1) * size < items
        }),
{
    let n = (items + size - 1) / size;
    vstd::arithmetic::div_mod::lemma_fundamental_div_mod(items + size - 1, size);
    let r = (items + size - 1) % size;
    assert(size * n == n * size) by (nonlinear_arith);
    assert((n - 1) * size == n * size - size) by (nonlinear_arith);
}

/// Two halves in one word, the first in the lower half; an odd last one is
/// paired with 0.
pub open spec fn packed(halves: Seq<u16>) -> Seq<u32> {
    Seq::new(
        (halves.len() + 1) as nat / 2,
        |i: int|
            (halves[2 * i] + 0x1_0000 * (if 2 * i + 1 < halves.len() {
                halves[2 * i + 1] as int
            } else {
                0
            })) as u32,
    )
}

/// Pack half-precision bit patterns two to a word.
pub fn pack_halves(halves: &[u16]) -> (words: Vec<u32>)
    ensures
        words@ == packed(halves@),
        words@.len() == (halves@.len() + 1) / 2,
        forall|i: int|
            0 <= i < words@.len() ==> {
                &&& #[trigger] words@[i] as int % 0x1_0000 == halves@[2 * i]
                &&& words@[i] as int / 0x1_0000 == (if 2 * i + 1 < halves@.len() {
                    halves@[2 * i + 1] as int
                } else {
                    0
                })
            },
{
    let mut words: Vec<u32> = Vec::with_capacity(halves.len() / 2 + 1);
    let mut i: usize = 0;
    while i < halves.len()
        invariant
            i % 2 == 0 || i == halves.len(),
            i <= halves.len(),
            words@.len() == (i + 1) / 2,
            forall|j: int| 0 <= j < words@.len() ==> #[trigger] words@[j] == packed(halves@)[j],
        decreases halves.len() - i,
    {
        let low: u32 = halves[i] as u32;
        if halves.len() - i >= 2 {
            let high: u32 = halves[i + 1] as u32;
            words.push(low + high * 0x1_0000);
            i += 2;
        } else {
            words.push(low);
            i += 1;
        }
    }
    assert(words@ =~= packed(halves@));
    words
}

/// The half at place `i` can be taken out of the word it was packed into.
pub proof fn halves_unpack(halves: Seq<u16>, i: int)
    requires
        0 <= i < halves.len(),
    ensures
        i / 2 < packed(halves).len(),
        halves[i] == (if i % 2 == 0 {
            packed(halves)[i / 2] as int % 0x1_0000
        } else {
            packed(halves)[i / 2] as int / 0x1_0000
        }),
{
    assert(i == 2 * (i / 2) + i % 2);
}

/// The words as the device takes them.
pub fn upload_image(words: &[u32]) -> (image: Vec<u8>)
    ensures
        image@ == memory_image(words@),
        image@.len() == 4 * words@.len(),
        memory_words_at(image@, 0, words@.len() as int) == words@,
{
    let bytes = memory_bytes(words);
    let mut image: Vec<u8> = Vec::with_capacity(bytes.len());
    image.extend_from_slice(bytes);
    assert(image@ =~= bytes@);
    proof {
        assert(image@.subrange(0, 4 * words@.len() as int) =~= image@);
        crate::machine::image_read_back(image@, 0, words@);
    }
    image
}

/// The first `rows` rows of a flat table of `width` columns.
pub fn split_rows(flat: &[u32], rows: usize, width: usize) -> (out: Vec<Vec<u32>>)
    requires
        rows * width <= flat@.len(),
    ensures
        out@.len() == rows,
        forall|i: int|
            0 <= i < rows ==> (#[trigger] out@[i])@ == flat@.subrange(
                i * width,
                i * width + width,
            ),
{
    assert(flat.len() == flat@.len());
    let mut out: Vec<Vec<u32>> = Vec::with_capacity(rows);
    let mut i: usize = 0;
    while i < rows
        invariant
            i <= rows,
            rows * width <= flat@.len() == flat.len(),
            out@.len() == i,
            forall|j: int|
                0 <= j < i ==> (#[trigger] out@[j])@ == flat@.subrange(
                    j * width,
                    j * width + width,
                ),
        decreases rows - i,
    {
        assert(i * width + width <= rows * width) by (nonlinear_arith)
            requires
                i < rows,
        ;
        let start: usize = i * width;
        let row = vstd::slice::slice_subrange(flat, start, start + width);
        let mut copy: Vec<u32> = Vec::with_capacity(width);
        copy.extend_from_slice(row);
        assert(copy@ =~= flat@.subrange(i * width, i * width + width));
        out.push(copy);
        i += 1;
    }
    out
}

/// A buffer has at most 256 MiB, and can be bound as uniform exactly if it was
/// made so.
pub proof fn uniforms_bind_as_uniforms(usage: Usage, kind: BindingKind)
    ensures
        MAX_BUFFER_BYTES == 256 * 1024 * 1024,
        binds_as(usage, kind) <==> (usage == Usage::Uniform) == (kind == BindingKind::Uniform),
{
}

/// Two halves make one word, the first in its lower half, and a last one
/// without a partner makes a word by itself.
pub proof fn halves_fill_words(halves: Seq<u16>, i: int)
    requires
        0 <= 2 * i < halves.len(),
    ensures
        packed(halves).len() == (halves.len() + 1) / 2,
        packed(halves)[i] as int % 0x1_0000 == halves[2 * i],
        packed(halves)[i] as int / 0x1_0000 == (if 2 * i + 1 < halves.len() {
            halves[2 * i + 1] as int
        } else {
            0
        }),
{
}

} // verus!
