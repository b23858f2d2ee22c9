//! Model files: the header, the tensor dictionary and the tensors.

use crate::decimal::to_bracketed;
use crate::machine::read_memory_words;
use crate::tensor::Matrix;
use crate::vocab::same_bytes;
use vstd::bytes::{u32_from_le_bytes, u64_from_le_bytes};
use vstd::hash_map::StringHashMap;
use vstd::prelude::*;
use vstd::slice::slice_subrange;
use vstd::string::StringExecFns;

verus! {

use crate::decimal::bracketed;
use crate::layout::{
    align64,
    data_size,
    data_start,
    file_bytes,
    magic,
    read_dict,
    read_entries,
    read_entry,
    read_head,
    u32_at,
    u64_at,
    words_at,
    DictModel,
    EntryModel,
    HeadModel,
    TensorModel,
};
use crate::machine::{memory_words_at, word_of};
use crate::round_trip::{file_storable, registry_of};
use vstd::arithmetic::power2::pow2;
use vstd::bytes::{spec_u32_from_le_bytes, spec_u64_from_le_bytes};
use vstd::utf8::{decode_utf8, encode_utf8, valid_utf8};

/// The first bytes of a file: `SOV_ARCA`.
pub const MAGIC: [u8; 8] = [0x53, 0x4f, 0x56, 0x5f, 0x41, 0x52, 0x43, 0x41];

/// Every section of a file and every tensor begins at a multiple of this.
pub const ALIGN: usize = 64;

/// What can go wrong with a model file.
#[derive(Debug)]
pub enum SovereignError {
    InvalidMagicBytes,
    HeaderParsingFailed,
    TensorNotFound(String),
    AlignmentError,
    /// A file could not be read or written; the message of the system.
    IOError(String),
    ShapeMismatch { name: String, expected: Vec<usize>, got: Vec<usize> },
}

impl SovereignError {
    /// The error as text.
    pub open spec fn text(&self) -> Seq<char> {
        match self {
            SovereignError::InvalidMagicBytes => "Invalid magic bytes: expected SOV_ARCA"@,
            SovereignError::HeaderParsingFailed => "Failed to parse sovereign header JSON"@,
            SovereignError::TensorNotFound(name) => "Tensor not found in registry: "@ + name@,
            SovereignError::AlignmentError => "Tensor data is not 64-byte aligned"@,
            SovereignError::IOError(message) => "IO error: "@ + message@,
            SovereignError::ShapeMismatch { name, expected, got } => "Shape mismatch for '"@
                + name@ + "': expected "@ + bracketed(expected@) + ", got "@ + bracketed(got@),
        }
    }

    /// The error as text.
    pub fn message(&self) -> (text: String)
        ensures
            text@ == self.text(),
            match self {
                SovereignError::InvalidMagicBytes => text@
                    == "Invalid magic bytes: expected SOV_ARCA"@,
                SovereignError::HeaderParsingFailed => text@
                    == "Failed to parse sovereign header JSON"@,
                SovereignError::TensorNotFound(name) => text@ == "Tensor not found in registry: "@
                    + name@,
                SovereignError::AlignmentError => text@ == "Tensor data is not 64-byte aligned"@,
                SovereignError::IOError(message) => text@ == "IO error: "@ + message@,
                SovereignError::ShapeMismatch { name, expected, got } => text@
                    == "Shape mismatch for '"@ + name@ + "': expected "@ + bracketed(expected@)
                    + ", got "@ + bracketed(got@),
            },
    {
        match self {
            SovereignError::InvalidMagicBytes => "Invalid magic bytes: expected SOV_ARCA".to_owned(),
            SovereignError::HeaderParsingFailed => "Failed to parse sovereign header JSON".to_owned(),
            SovereignError::TensorNotFound(name) => {
                let mut text = "Tensor not found in registry: ".to_owned();
                text.append(name.as_str());
                text
            },
            SovereignError::AlignmentError => "Tensor data is not 64-byte aligned".to_owned(),
            SovereignError::IOError(message) => {
                let mut text = "IO error: ".to_owned();
                text.append(message.as_str());
                text
            },
            SovereignError::ShapeMismatch { name, expected, got } => {
                let mut text = "Shape mismatch for '".to_owned();
                text.append(name.as_str());
                text.append("': expected ");
                text.append(to_bracketed(expected).as_str());
                text.append(", got ");
                text.append(to_bracketed(got).as_str());
                text
            },
        }
    }
}

/// The dimensions of a model.
#[derive(Debug, Clone, Copy, PartialEq, Eq, Structural)]
pub struct SovereignHeader {
    pub num_layers: usize,
    pub d_model: usize,
    pub n_res: usize,
    pub lsh_k: usize,
    pub rank_r: usize,
    /// The seed from which the sparse reservoir matrix is generated.
    pub lsm_seed: u64,
    /// The bit pattern of the share of non-zero reservoir weights.
    pub lsm_density: u32,
    pub vocab_size: usize,
    pub top_k_out: usize,
}

impl Default for SovereignHeader {
    fn default() -> (out: Self)
        ensures
            out == (SovereignHeader {
                num_layers: 4,
                d_model: 512,
                n_res: 4096,
                lsh_k: 32,
                rank_r: 32,
                lsm_seed: 0xDEAD_BEEF_CAFE_1234,
                lsm_density: 0x3D4C_CCCD,
                vocab_size: 50_000,
                top_k_out: 200,
            }),
    {
        SovereignHeader {
            num_layers: 4,
            d_model: 512,
            n_res: 4096,
            lsh_k: 32,
            rank_r: 32,
            lsm_seed: 0xDEAD_BEEF_CAFE_1234,
            // 0.05
            lsm_density: 0x3D4C_CCCD,
            vocab_size: 50_000,
            top_k_out: 200,
        }
    }
}

/// `(x + align - 1) & !(align - 1)`: for a power of two, the smallest multiple
/// of `align` that is not below `x`.
pub fn align_up(x: usize, align: usize) -> (out: usize)
    requires
        align >= 1,
        x + align - 1 <= usize::MAX,
    ensures
        out == ((x + align - 1) as usize) & !((align - 1) as usize),
        forall|n: nat| #[trigger]
            pow2(n) == align ==> {
                &&& x <= out < x + align
                &&& out % align == 0
            },
        align == 64 ==> out == align64(x as int),
{
    let y: usize = x + (align - 1);
    let mask: usize = align - 1;
    let out: usize = y & !mask;
    proof {
        assert forall|n: nat| #[trigger] pow2(n) == align implies {
            &&& x <= out < x + align
            &&& out % align == 0
        } by {
            aligned_by_mask(x, align, n);
        }
        if align == 64 {
            vstd::arithmetic::power2::lemma2_to64();
            aligned_by_mask(x, align, 6);
        }
    }
    out
}

proof fn aligned_by_mask(x: usize, align: usize, n: nat)
    requires
        align >= 1,
        pow2(n) == align,
        x + align - 1 <= usize::MAX,
    ensures
        ({
            let out = ((x + align - 1) as usize) & !((align - 1) as usize);
            &&& x <= out < x + align
            &&& out % align == 0
        }),
{
    let y = (x + align - 1) as usize;
    let mask = (align - 1) as usize;
    assert((y & !mask) + (y & mask) == y) by (bit_vector);
    assert(n < usize::BITS) by {
        if n >= usize::BITS {
            if usize::BITS as nat == n {
            } else {
                vstd::arithmetic::power2::lemma_pow2_strictly_increases(usize::BITS as nat, n);
            }
            vstd::arithmetic::power2::lemma2_to64();
        }
    }
    vstd::bits::lemma_usize_low_bits_mask_is_mod(y, n);
    let out = y & !mask;
    assert(y & mask == y % align);
    let q = y as int / align as int;
    vstd::arithmetic::div_mod::lemma_fundamental_div_mod(y as int, align as int);
    assert(out == align * q);
    vstd::arithmetic::div_mod::lemma_mod_multiples_basic(q, align as int);
    assert(align * q == q * align) by (nonlinear_arith);
    assert(0 <= y % align < align);
}

/// `std::str::from_utf8`: bytes that are valid UTF-8 come back as the text whose
/// encoding they are, all others are refused.
#[verifier::external_body]
fn utf8_text(bytes: &[u8]) -> (text: Option<&str>)
    ensures
        text is Some <==> valid_utf8(bytes@),
        text matches Some(t) ==> encode_utf8(t@) == bytes@,
{
    std::str::from_utf8(bytes).ok()
}

fn read_u32(bytes: &[u8], at: usize) -> (x: u32)
    requires
        at + 4 <= bytes@.len(),
    ensures
        x == u32_at(bytes@, at as int),
{
    assert(bytes.len() == bytes@.len());
    u32_from_le_bytes(slice_subrange(bytes, at, at + 4))
}

fn read_u64(bytes: &[u8], at: usize) -> (x: u64)
    requires
        at + 8 <= bytes@.len(),
    ensures
        x == u64_at(bytes@, at as int),
{
    assert(bytes.len() == bytes@.len());
    u64_from_le_bytes(slice_subrange(bytes, at, at + 8))
}

/// The little-endian words that lie in `bytes` from `at` on.
fn read_words(bytes: &[u8], at: usize, n: usize) -> (words: Vec<u32>)
    requires
        at + 4 * n <= bytes@.len(),
    ensures
        words@ == words_at(bytes@, at as int, n as int),
{
    let mut words: Vec<u32> = Vec::with_capacity(n);
    let mut i: usize = 0;
    while i < n
        invariant
            i <= n,
            at + 4 * n <= bytes@.len(),
            words@ == words_at(bytes@, at as int, i as int),
        decreases n - i,
    {
        assert(bytes.len() == bytes@.len());
        words.push(read_u32(bytes, at + 4 * i));
        assert(words@ =~= words_at(bytes@, at as int, i + 1));
        i += 1;
    }
    words
}

/// Registry entry: where the data of a tensor begins, its length in bytes, and
/// its dimensions.
pub type TensorEntry = (usize, usize, Vec<usize>);

pub open spec fn entry_model(entry: TensorEntry) -> EntryModel {
    EntryModel { offset: entry.0, byte_len: entry.1, shape: entry.2@ }
}

pub open spec fn registry_model(registry: Map<Seq<char>, TensorEntry>) -> Map<
    Seq<char>,
    EntryModel,
> {
    registry.map_values(|e: TensorEntry| entry_model(e))
}

/// The magic bytes are those of `SOV_ARCA`.
pub proof fn magic_is_text()
    ensures
        magic() == encode_utf8("SOV_ARCA"@),
{
    reveal_strlit("SOV_ARCA");
    assert(vstd::utf8::is_ascii_chars("SOV_ARCA"@));
    vstd::utf8::is_ascii_chars_encode_utf8("SOV_ARCA"@);
    assert(encode_utf8("SOV_ARCA"@) =~= magic());
}

/// Read the head of a file: the text of the header, and where the dictionary
/// begins. `None` where the file ends before the head does.
pub fn scan_head(bytes: &[u8]) -> (out: Option<Result<(&str, usize), SovereignError>>)
    requires
        bytes@.len() <= isize::MAX,
    ensures
        match read_head(bytes@) {
            HeadModel::CutShort => out is None,
            HeadModel::BadMagic => out matches Some(Err(SovereignError::InvalidMagicBytes)),
            HeadModel::BadText => out matches Some(Err(SovereignError::HeaderParsingFailed)),
            HeadModel::Head { text, dict_start } => out matches Some(Ok(head)) && head.0@ == text
                && head.1 == dict_start,
        },
        out is None <==> bytes@.len() < 8 || bytes@.take(8) == encode_utf8("SOV_ARCA"@) && (
        bytes@.len() < 16 || spec_u64_from_le_bytes(bytes@.subrange(8, 16)) as usize + 16
            > bytes@.len()),
        out matches Some(Err(SovereignError::InvalidMagicBytes)) <==> bytes@.len() >= 8
            && bytes@.take(8) != encode_utf8("SOV_ARCA"@),
        out matches Some(Ok(head)) ==> {
            let n = spec_u64_from_le_bytes(bytes@.subrange(8, 16)) as usize;
            &&& encode_utf8(head.0@) == bytes@.subrange(16, 16 + n)
            &&& head.1 == (16 + n + 63) / 64 * 64
        },
{
    proof {
        magic_is_text();
    }
    if bytes.len() < 8 {
        return None;
    }
    let first = slice_subrange(bytes, 0, 8);
    assert(first@ =~= bytes@.take(8));
    assert(MAGIC@ =~= magic());
    if !same_bytes(first, &MAGIC) {
        return Some(Err(SovereignError::InvalidMagicBytes));
    }
    if bytes.len() < 16 {
        return None;
    }
    #[verifier::truncate]
    let n: usize = read_u64(bytes, 8) as usize;
    if n > bytes.len() - 16 {
        return None;
    }
    match utf8_text(slice_subrange(bytes, 16, 16 + n)) {
        None => Some(Err(SovereignError::HeaderParsingFailed)),
        Some(text) => {
            proof {
                vstd::utf8::encode_utf8_decode_utf8(text@);
            }
            Some(Ok((text, align_up(16 + n, ALIGN))))
        },
    }
}

/// Read the tensor dictionary at `cursor`; a file that ends there has an empty
/// one. `None` where the file ends within the dictionary.
pub fn scan_tensor_dict(bytes: &[u8], cursor: usize) -> (out: Option<
    Result<StringHashMap<TensorEntry>, SovereignError>,
>)
    ensures
        match read_dict(bytes@, cursor as int) {
            DictModel::CutShort => out is None,
            DictModel::BadName => out matches Some(Err(SovereignError::HeaderParsingFailed)),
            DictModel::Read { registry, .. } => out matches Some(Ok(found)) && registry_model(
                found@,
            ) == registry,
        },
{
    let mut registry: StringHashMap<TensorEntry> = StringHashMap::new();
    assert(registry_model(registry@) =~= Map::empty());
    if cursor > bytes.len() || bytes.len() - cursor < 4 {
        return Some(Ok(registry));
    }
    let count: u32 = read_u32(bytes, cursor);
    let ghost start = cursor + 4;
    let mut at: usize = cursor + 4;
    let mut done: u32 = 0;
    while done < count
        invariant
            done <= count,
            at <= bytes@.len(),
            cursor + 4 <= bytes@.len(),
            start == cursor + 4,
            count == u32_at(bytes@, cursor as int),
            read_entries(bytes@, start, done as nat) == (DictModel::Read {
                registry: registry_model(registry@),
                cursor: at as int,
            }),
        decreases count - done,
    {
        let ghost before = registry_model(registry@);
        let ghost outcome = read_entry(bytes@, before, at as int);
        proof {
            if !(outcome is Read) {
                failure_is_final(bytes@, start, (done + 1) as nat, count as nat);
            }
        }
        if bytes.len() - at < 4 {
            return None;
        }
        let name_at: usize = at + 4;
        let name_len: usize = read_u32(bytes, at) as usize;
        if name_len > bytes.len() - name_at {
            return None;
        }
        let rest: usize = name_at + name_len;
        let name = match utf8_text(slice_subrange(bytes, name_at, rest)) {
            Some(text) => text,
            None => {
                return Some(Err(SovereignError::HeaderParsingFailed));
            },
        };
        if bytes.len() - rest < 20 {
            return None;
        }
        #[verifier::truncate]
        let offset: usize = read_u64(bytes, rest) as usize;
        #[verifier::truncate]
        let byte_len: usize = read_u64(bytes, rest + 8) as usize;
        let shape_len: usize = read_u32(bytes, rest + 16) as usize;
        if shape_len > (bytes.len() - (rest + 20)) / 4 {
            return None;
        }
        let dims = read_words(bytes, rest + 20, shape_len);
        let shape = widen(&dims);
        let entry: TensorEntry = (offset, byte_len, shape);
        let ghost old_registry = registry@;
        registry.insert(name.to_owned(), entry);
        proof {
            vstd::utf8::encode_utf8_decode_utf8(name@);
            assert(entry_model(entry).shape =~= words_at(
                bytes@,
                rest + 20,
                shape_len as int,
            ).map_values(|dim: u32| dim as usize));
            assert(registry_model(registry@) =~= before.insert(name@, entry_model(entry)));
        }
        at = rest + 20 + 4 * shape_len;
        done += 1;
    }
    Some(Ok(registry))
}

/// Words as dimensions.
fn widen(words: &[u32]) -> (dims: Vec<usize>)
    ensures
        dims@ == words@.map_values(|dim: u32| dim as usize),
{
    let mut dims: Vec<usize> = Vec::with_capacity(words.len());
    let mut i: usize = 0;
    while i < words.len()
        invariant
            i <= words.len(),
            dims@ == words@.take(i as int).map_values(|dim: u32| dim as usize),
        decreases words.len() - i,
    {
        dims.push(words[i] as usize);
        i += 1;
    }
    assert(words@.take(i as int) =~= words@);
    dims
}

/// What stopped the reading of an entry stops the reading of the dictionary.
proof fn failure_is_final(bytes: Seq<u8>, start: int, k: nat, n: nat)
    requires
        k <= n,
        !(read_entries(bytes, start, k) is Read),
    ensures
        read_entries(bytes, start, n) == read_entries(bytes, start, k),
    decreases n,
{
    if k < n {
        failure_is_final(bytes, start, k, (n - 1) as nat);
    }
}

/// A loaded model: the header, the bytes of the file, and where in them each
/// tensor lies.
pub struct SovereignModel<'a> {
    pub header: SovereignHeader,
    pub bytes: &'a [u8],
    pub tensor_registry: StringHashMap<TensorEntry>,
}

/// What a lookup of a tensor finds.
pub enum Lookup {
    /// There is no tensor of that name.
    Missing,
    /// The data does not begin at a multiple of four.
    Misaligned,
    /// The data lies beyond the end of the file.
    OutOfBounds,
    Found { data: Seq<u32>, shape: Seq<usize> },
}

/// Looking `name` up in a file.
pub open spec fn lookup(
    bytes: Seq<u8>,
    registry: Map<Seq<char>, EntryModel>,
    name: Seq<char>,
) -> Lookup {
    if !registry.contains_key(name) {
        Lookup::Missing
    } else {
        let entry = registry[name];
        if entry.offset % 4 != 0 {
            Lookup::Misaligned
        } else if entry.offset + entry.byte_len > bytes.len() {
            Lookup::OutOfBounds
        } else {
            Lookup::Found {
                data: memory_words_at(bytes, entry.offset as int, entry.byte_len as int / 4),
                shape: entry.shape,
            }
        }
    }
}

/// The dimensions of `name` are two, and their product is its length.
pub open spec fn is_rank_two(registry: Map<Seq<char>, EntryModel>, name: Seq<char>) -> bool {
    registry.contains_key(name) ==> {
        let entry = registry[name];
        entry.shape.len() == 2 && entry.shape[0] * entry.shape[1] * 4 == entry.byte_len
    }
}

impl<'a> SovereignModel<'a> {
    pub open spec fn registry(&self) -> Map<Seq<char>, EntryModel> {
        registry_model(self.tensor_registry@)
    }

    pub open spec fn lookup(&self, name: Seq<char>) -> Lookup {
        lookup(self.bytes@, self.registry(), name)
    }

    /// Read the tensor dictionary of a file that does not end within it.
    pub fn parse_tensor_dict(bytes: &[u8], cursor: usize) -> (out: Result<
        StringHashMap<TensorEntry>,
        SovereignError,
    >)
        requires
            !(read_dict(bytes@, cursor as int) is CutShort),
        ensures
            match read_dict(bytes@, cursor as int) {
                DictModel::Read { registry, .. } => out matches Ok(found) && registry_model(found@)
                    == registry,
                _ => out matches Err(SovereignError::HeaderParsingFailed),
            },
    {
        match scan_tensor_dict(bytes, cursor) {
            Some(out) => out,
            None => Err(SovereignError::HeaderParsingFailed),
        }
    }

    /// Load a file that does not end early. `header` is what the text of the
    /// header parses as, `None` where it does not parse.
    pub fn load(bytes: &'a [u8], header: Option<SovereignHeader>) -> (out: Result<
        Self,
        SovereignError,
    >)
        requires
            bytes@.len() <= isize::MAX,
            match read_head(bytes@) {
                HeadModel::CutShort => false,
                HeadModel::Head { dict_start, .. } => header is Some ==> !(read_dict(
                    bytes@,
                    dict_start,
                ) is CutShort),
                _ => true,
            },
        ensures
            match (read_head(bytes@), header) {
                (HeadModel::BadMagic, _) => out matches Err(SovereignError::InvalidMagicBytes),
                (HeadModel::Head { dict_start, .. }, Some(h)) => match read_dict(
                    bytes@,
                    dict_start,
                ) {
                    DictModel::Read { registry, .. } => out matches Ok(model) && model.header == h
                        && model.bytes@ == bytes@ && model.registry() == registry,
                    _ => out matches Err(SovereignError::HeaderParsingFailed),
                },
                _ => out matches Err(SovereignError::HeaderParsingFailed),
            },
    {
        let dict_start: usize = match scan_head(bytes) {
            Some(Ok((_, dict_start))) => dict_start,
            Some(Err(e)) => {
                return Err(e);
            },
            None => {
                return Err(SovereignError::HeaderParsingFailed);
            },
        };
        let header = match header {
            Some(h) => h,
            None => {
                return Err(SovereignError::HeaderParsingFailed);
            },
        };
        match Self::parse_tensor_dict(bytes, dict_start) {
            Ok(tensor_registry) => Ok(SovereignModel { header, bytes, tensor_registry }),
            Err(e) => Err(e),
        }
    }

    /// The bit patterns of the values of a tensor.
    pub fn tensor_f32_slice(&self, name: &str) -> (out: Result<Vec<u32>, SovereignError>)
        requires
            !(self.lookup(name@) is OutOfBounds),
        ensures
            match self.lookup(name@) {
                Lookup::Missing => out matches Err(SovereignError::TensorNotFound(n)) && n@
                    == name@,
                Lookup::Misaligned => out matches Err(SovereignError::AlignmentError),
                Lookup::Found { data, .. } => out matches Ok(words) && words@ == data,
                Lookup::OutOfBounds => false,
            },
            out matches Err(SovereignError::TensorNotFound(n)) <==> !self.tensor_registry@.contains_key(
                name@,
            ),
            out matches Ok(words) ==> {
                let entry = self.tensor_registry@[name@];
                &&& entry.0 % 4 == 0
                &&& words@.len() == entry.1 as int / 4
                &&& forall|i: int|
                    0 <= i < words@.len() ==> #[trigger] words@[i] == word_of(
                        self.bytes@.subrange(entry.0 + 4 * i, entry.0 + 4 * i + 4),
                    )
            },
            self.tensor_registry@.contains_key(name@) ==> (out matches Err(
                SovereignError::AlignmentError,
            ) <==> self.tensor_registry@[name@].0 % 4 != 0),
    {
        match self.tensor_registry.get(name) {
            None => Err(SovereignError::TensorNotFound(name.to_owned())),
            Some(entry) => {
                assert(self.registry()[name@] == entry_model(*entry));
                if entry.0 % 4 != 0 {
                    return Err(SovereignError::AlignmentError);
                }
                Ok(read_memory_words(self.bytes, entry.0, entry.1 / 4))
            },
        }
    }

    /// A tensor of two dimensions.
    pub fn tensor_as_array2(&self, name: &str) -> (out: Result<Matrix, SovereignError>)
        requires
            is_rank_two(self.registry(), name@),
            !(self.lookup(name@) is OutOfBounds),
        ensures
            match self.lookup(name@) {
                Lookup::Missing => out matches Err(SovereignError::TensorNotFound(n)) && n@
                    == name@,
                Lookup::Misaligned => out matches Err(SovereignError::AlignmentError),
                Lookup::Found { data, shape } => out matches Ok(matrix) && matrix.well_formed()
                    && matrix.has_shape(shape[0] as int, shape[1] as int) && matrix.data@ == data,
                Lookup::OutOfBounds => false,
            },
    {
        let (rows, cols) = match self.tensor_registry.get(name) {
            None => {
                return Err(SovereignError::TensorNotFound(name.to_owned()));
            },
            Some(entry) => {
                assert(self.registry()[name@] == entry_model(*entry));
                (entry.2[0], entry.2[1])
            },
        };
        let data = self.tensor_f32_slice(name)?;
        Ok(Matrix { rows, cols, data })
    }

    /// A tensor as a flat vector.
    pub fn tensor_as_array1(&self, name: &str) -> (out: Result<Vec<u32>, SovereignError>)
        requires
            !(self.lookup(name@) is OutOfBounds),
        ensures
            match self.lookup(name@) {
                Lookup::Missing => out matches Err(SovereignError::TensorNotFound(n)) && n@
                    == name@,
                Lookup::Misaligned => out matches Err(SovereignError::AlignmentError),
                Lookup::Found { data, .. } => out matches Ok(words) && words@ == data,
                Lookup::OutOfBounds => false,
            },
    {
        self.tensor_f32_slice(name)
    }
}

/// A file that was written with `file_image` is not cut short, and a tensor
/// whose name no later tensor bears is found in it with its values and
/// dimensions.
pub proof fn written_tensor_is_found(header_json: Seq<char>, tensors: Seq<TensorModel>, k: int)
    requires
        file_storable(header_json, tensors),
        0 <= k < tensors.len(),
        forall|j: int| k < j < tensors.len() ==> (#[trigger] tensors[j]).name != tensors[k].name,
    ensures
        ({
            let file = file_bytes(header_json, tensors);
            &&& read_head(file) matches HeadModel::Head { text, dict_start }
            &&& text == header_json
            &&& read_dict(file, dict_start) matches DictModel::Read { registry, .. }
            &&& lookup(file, registry, tensors[k].name) == (Lookup::Found {
                data: tensors[k].data,
                shape: tensors[k].shape,
            })
        }),
{
    let start = data_start(header_json, tensors);
    let offset = start + data_size(tensors.take(k));
    let file = file_bytes(header_json, tensors);
    let registry = registry_of(tensors, start);
    crate::round_trip::head_read_back(header_json, tensors);
    crate::round_trip::dict_read_back(header_json, tensors);
    assert(lookup(file, registry, tensors[k].name) == (Lookup::Found {
        data: tensors[k].data,
        shape: tensors[k].shape,
    })) by {
        crate::round_trip::data_read_back(header_json, tensors, k);
        crate::round_trip::registry_holds(tensors, start, k);
        crate::round_trip::file_length(header_json, tensors);
        assert(4 * tensors[k].data.len() / 4 == tensors[k].data.len());
    }
}

/// A head is read where the file begins with `SOV_ARCA` and holds as much text
/// as it says; the text must be UTF-8, and the dictionary begins at the next
/// multiple of 64.
pub proof fn head_is_read_as_laid_out(bytes: Seq<u8>)
    ensures
        ({
            let n = spec_u64_from_le_bytes(bytes.subrange(8, 16)) as usize;
            let text = bytes.subrange(16, 16 + n);
            let begins = bytes.len() >= 8 && bytes.take(8) == encode_utf8("SOV_ARCA"@);
            &&& read_head(bytes) is BadMagic <==> bytes.len() >= 8 && !begins
            &&& read_head(bytes) is CutShort <==> bytes.len() < 8 || begins && (bytes.len() < 16
                || 16 + n > bytes.len())
            &&& read_head(bytes) is BadText <==> begins && bytes.len() >= 16 && 16 + n
                <= bytes.len() && !valid_utf8(text)
            &&& read_head(bytes) matches HeadModel::Head { text: t, dict_start } ==> t
                == decode_utf8(text) && dict_start == (16 + n + 63) / 64 * 64
        }),
{
    magic_is_text();
}

/// An entry is read field by field: the length of the name, the name, the
/// offset and the length of the data, the number of dimensions and the
/// dimensions. A file that ends before is cut short, and a name that is not
/// UTF-8 is refused.
pub proof fn entry_is_read_as_laid_out(
    bytes: Seq<u8>,
    registry: Map<Seq<char>, EntryModel>,
    cursor: int,
)
    requires
        0 <= cursor,
    ensures
        ({
            let n = spec_u32_from_le_bytes(bytes.subrange(cursor, cursor + 4)) as int;
            let name = bytes.subrange(cursor + 4, cursor + 4 + n);
            let dims = spec_u32_from_le_bytes(
                bytes.subrange(cursor + 20 + n, cursor + 24 + n),
            ) as int;
            let end = cursor + 24 + n + 4 * dims;
            let named = cursor + 4 + n <= bytes.len();
            &&& read_entry(bytes, registry, cursor) is BadName <==> named && !valid_utf8(name)
            &&& read_entry(bytes, registry, cursor) is Read <==> named && valid_utf8(name)
                && cursor + 24 + n <= bytes.len() && end <= bytes.len()
            &&& read_entry(bytes, registry, cursor) matches DictModel::Read {
                registry: after,
                cursor: next,
            } ==> {
                let entry = after[decode_utf8(name)];
                &&& next == end
                &&& after == registry.insert(decode_utf8(name), entry)
                &&& entry.offset == spec_u64_from_le_bytes(
                    bytes.subrange(cursor + 4 + n, cursor + 12 + n),
                ) as usize
                &&& entry.byte_len == spec_u64_from_le_bytes(
                    bytes.subrange(cursor + 12 + n, cursor + 20 + n),
                ) as usize
                &&& entry.shape.len() == dims
                &&& forall|d: int|
                    0 <= d < dims ==> #[trigger] entry.shape[d] == spec_u32_from_le_bytes(
                        bytes.subrange(cursor + 24 + n + 4 * d, cursor + 28 + n + 4 * d),
                    )
            }
        }),
{
}

/// The dictionary is as many entries as it says, one after the other; a file
/// that ends before the number has none.
pub proof fn dict_is_read_entry_by_entry(bytes: Seq<u8>, start: int, n: nat)
    ensures
        start + 4 > bytes.len() ==> read_dict(bytes, start) == (DictModel::Read {
            registry: Map::empty(),
            cursor: start,
        }),
        start + 4 <= bytes.len() ==> read_dict(bytes, start) == read_entries(
            bytes,
            start + 4,
            spec_u32_from_le_bytes(bytes.subrange(start, start + 4)) as nat,
        ),
        read_entries(bytes, start, 0) == (DictModel::Read {
            registry: Map::empty(),
            cursor: start,
        }),
        read_entries(bytes, start, n + 1) == (match read_entries(bytes, start, n) {
            DictModel::Read { registry, cursor } => read_entry(bytes, registry, cursor),
            failed => failed,
        }),
{
}

/// A tensor is found where the dictionary has its name, its data begins at a
/// multiple of four and lies within the file; its values are the words there.
pub proof fn lookup_is_by_dictionary(
    bytes: Seq<u8>,
    registry: Map<Seq<char>, EntryModel>,
    name: Seq<char>,
)
    ensures
        ({
            let entry = registry[name];
            let listed = registry.contains_key(name);
            &&& lookup(bytes, registry, name) is Missing <==> !listed
            &&& lookup(bytes, registry, name) is Misaligned <==> listed && entry.offset as int % 4
                != 0
            &&& lookup(bytes, registry, name) is OutOfBounds <==> listed && entry.offset as int % 4
                == 0 && entry.offset + entry.byte_len > bytes.len()
            &&& lookup(bytes, registry, name) matches Lookup::Found { data, shape } ==> {
                &&& shape == entry.shape
                &&& data.len() == entry.byte_len as int / 4
                &&& forall|i: int|
                    0 <= i < data.len() ==> #[trigger] data[i] == word_of(
                        bytes.subrange(entry.offset + 4 * i, entry.offset + 4 * i + 4),
                    )
            }
        }),
{
}

/// A tensor can be read as a matrix where it has two dimensions whose product
/// is the number of its values.
pub proof fn matrices_have_two_dimensions(
    registry: Map<Seq<char>, EntryModel>,
    name: Seq<char>,
)
    requires
        registry.contains_key(name),
    ensures
        is_rank_two(registry, name) <==> registry[name].shape.len() == 2 && 4 * (
        registry[name].shape[0] * registry[name].shape[1]) == registry[name].byte_len,
{
}

/// A registry entry holds the offset, the length and the dimensions, and the
/// registry has the names of the dictionary.
pub proof fn registry_entries_in_full(registry: Map<Seq<char>, TensorEntry>, name: Seq<char>)
    ensures
        registry_model(registry).contains_key(name) <==> registry.contains_key(name),
        registry.contains_key(name) ==> {
            let entry = registry[name];
            let model = registry_model(registry)[name];
            &&& model.offset == entry.0
            &&& model.byte_len == entry.1
            &&& model.shape == entry.2@
        },
{
}

} // verus!
