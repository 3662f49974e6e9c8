use vstd::prelude::*;

verus! {

/// Position of a chunk in the chunk sequence: chunk `n` lives in the file `n.db3`.
pub type ChunkIndex = u64;

/// Byte offset from the start of a chunk file.
pub type Offset = u64;

/// The size limit of a chunk when none is configured: 1 GiB.
pub const MAX_CHUNK_SIZE: u64 = 1073741824;

pub open spec fn digit_char(d: nat) -> char {
    seq!['0', '1', '2', '3', '4', '5', '6', '7', '8', '9'][d as int]
}

/// Plain decimal text of `n`, without sign or leading zeros.
pub open spec fn decimal_of(n: nat) -> Seq<char>
    decreases n,
{
    if n < 10 {
        seq![digit_char(n)]
    } else {
        decimal_of(n / 10).push(digit_char(n % 10))
    }
}

pub open spec fn is_digit(c: char) -> bool {
    '0' <= c && c <= '9'
}

pub open spec fn digit_value(c: char) -> nat {
    (c as u32 - '0' as u32) as nat
}

/// The number that a string of decimal digits spells.
pub open spec fn value_of_digits(s: Seq<char>) -> nat
    decreases s.len(),
{
    if s.len() == 0 {
        0
    } else {
        value_of_digits(s.drop_last()) * 10 + digit_value(s.last())
    }
}

pub open spec fn chunk_ext() -> Seq<char> {
    seq!['.', 'd', 'b', '3']
}

/// File name of the chunk with the given index.
pub open spec fn chunk_name(index: nat) -> Seq<char> {
    decimal_of(index) + chunk_ext()
}

/// The index that a chunk file name spells: one or more decimal digits followed
/// by `.db3`, with a value that fits in a `u64`.
pub open spec fn chunk_index_of(name: Seq<char>) -> Option<u64> {
    let digits = name.subrange(0, name.len() - 4);
    if name.len() > 4 && name.subrange(name.len() - 4, name.len() as int) == chunk_ext()
        && (forall|i: int| 0 <= i < digits.len() ==> is_digit(#[trigger] digits[i]))
        && value_of_digits(digits) <= u64::MAX {
        Some(value_of_digits(digits) as u64)
    } else {
        None
    }
}

/// Outcome of the size check that guards an append.
pub open spec fn size_check(file_size: Option<u64>, max_chunk_size: u64) -> Result<(), ChunkError> {
    match file_size {
        None => Err(ChunkError::ChunkFileDoesNotExist),
        Some(len) => if len >= max_chunk_size {
            Err(ChunkError::ChunkTooLarge)
        } else {
            Ok(())
        },
    }
}

pub open spec fn chunk_size_or_default(max_chunk_size: Option<u64>) -> u64 {
    match max_chunk_size {
        Some(m) => m,
        None => MAX_CHUNK_SIZE,
    }
}

/// One bounded-size chunk file. File contents are handled by the caller; a
/// `Chunk` carries what the decisions about it need.
#[derive(Debug, Clone, Copy, PartialEq, Eq)]
pub struct Chunk {
    pub index: ChunkIndex,
    pub max_chunk_size: u64,
}

#[derive(Debug, Clone, Copy, PartialEq, Eq)]
pub enum ChunkError {
    /// The chunk already holds at least its maximum size.
    ChunkTooLarge,
    /// A file system operation failed.
    IoError,
    /// No file exists for the chunk.
    ChunkFileDoesNotExist,
}

pub type ChunkResult<T> = Result<T, ChunkError>;

/// Where a sweep over the chunk files settled.
#[derive(Debug, Clone, Copy, PartialEq, Eq)]
pub enum ChunkSlot {
    /// An existing chunk file that still has room.
    Open(Chunk),
    /// A chunk whose file does not exist yet and must be created empty.
    Create(Chunk),
}

/// Where a sweep from chunk `index` settles, given the sizes of the existing
/// chunk files from `index` on: the first chunk under its limit, else a new
/// chunk after the last existing one.
pub open spec fn sweep_from(index: u64, max_chunk_size: Option<u64>, sizes: Seq<u64>) -> ChunkSlot
    decreases sizes.len(),
{
    let max = chunk_size_or_default(max_chunk_size);
    if sizes.len() == 0 {
        ChunkSlot::Create(Chunk { index, max_chunk_size: max })
    } else if sizes[0] < max {
        ChunkSlot::Open(Chunk { index, max_chunk_size: max })
    } else {
        sweep_from((index + 1) as u64, max_chunk_size, sizes.drop_first())
    }
}

impl ChunkSlot {
    pub open spec fn chunk(self) -> Chunk {
        match self {
            ChunkSlot::Open(c) => c,
            ChunkSlot::Create(c) => c,
        }
    }

    pub fn into_chunk(self) -> (r: Chunk)
        ensures
            r == self.chunk(),
    {
        match self {
            ChunkSlot::Open(c) => c,
            ChunkSlot::Create(c) => c,
        }
    }
}

fn push_decimal(s: &mut String, n: u64)
    ensures
        final(s)@ == old(s)@ + decimal_of(n as nat),
    decreases n,
{
    if n >= 10 {
        push_decimal(s, n / 10);
    }
    let digits = "0123456789";
    proof {
        reveal_strlit("0123456789");
    }
    let d = (n % 10) as usize;
    s.append(digits.substring_char(d, d + 1));
    proof {
        assert(digits@.subrange(d as int, d + 1) =~= seq![digit_char(d as nat)]);
        if n >= 10 {
            assert(decimal_of(n as nat) == decimal_of((n / 10) as nat).push(digit_char((n % 10) as nat)));
        }
    }
    assert(final(s)@ =~= old(s)@ + decimal_of(n as nat));
}

proof fn lemma_decimal_digits(n: nat)
    ensures
        decimal_of(n).len() > 0,
        forall|i: int| 0 <= i < decimal_of(n).len() ==> is_digit(#[trigger] decimal_of(n)[i]),
        value_of_digits(decimal_of(n)) == n,
    decreases n,
{
    if n >= 10 {
        lemma_decimal_digits(n / 10);
        assert(decimal_of(n).drop_last() =~= decimal_of(n / 10));
    }
    reveal_with_fuel(value_of_digits, 2);
    assert(seq!['0', '1', '2', '3', '4', '5', '6', '7', '8', '9'][(n % 10) as int] as u32 - '0' as u32 == n % 10);
}

/// Reading a chunk's file name back gives its index.
pub proof fn lemma_chunk_name_round_trip(index: u64)
    ensures
        chunk_index_of(chunk_name(index as nat)) == Some(index),
{
    lemma_decimal_digits(index as nat);
    let name = chunk_name(index as nat);
    assert(name.subrange(0, name.len() - 4) =~= decimal_of(index as nat));
    assert(name.subrange(name.len() - 4, name.len() as int) =~= chunk_ext());
}

/// Converts a chunk index to its file name (`7` gives `7.db3`).
pub fn chunk_index_to_name(index: ChunkIndex) -> (r: String)
    ensures
        r@ == chunk_name(index as nat),
{
    let mut s = String::new();
    push_decimal(&mut s, index);
    let ext = ".db3";
    proof {
        reveal_strlit(".db3");
    }
    s.append(ext);
    assert(s@ =~= chunk_name(index as nat));
    s
}

/// Converts a chunk file name (`7.db3`) to the chunk index; `None` where the
/// name is not a decimal index followed by `.db3`.
pub fn chunk_name_to_index(name: String) -> (r: Option<ChunkIndex>)
    ensures
        r == chunk_index_of(name@),
{
    let n = name.as_str().unicode_len();
    if n <= 4 {
        return None;
    }
    let ext = ".db3";
    proof {
        reveal_strlit(".db3");
    }
    let tail = name.as_str().substring_char(n - 4, n);
    let mut k: usize = 0;
    while k < 4
        invariant
            k <= 4,
            n == name@.len(),
            n > 4,
            tail@ == name@.subrange(n - 4, n as int),
            tail@.len() == 4,
            ext@ == chunk_ext(),
            forall|j: int| 0 <= j < k ==> tail@[j] == chunk_ext()[j],
        decreases 4 - k,
    {
        if tail.get_char(k) != ext.get_char(k) {
            assert(name@.subrange(n - 4, n as int) != chunk_ext()) by {
                assert(tail@[k as int] != chunk_ext()[k as int]);
            }
            return None;
        }
        k = k + 1;
    }
    assert(name@.subrange(n - 4, n as int) =~= chunk_ext());
    let ghost digits = name@.subrange(0, n - 4);
    let mut value: u64 = 0;
    let mut i: usize = 0;
    while i < n - 4
        invariant
            n == name@.len(),
            n > 4,
            i <= n - 4,
            digits == name@.subrange(0, n - 4),
            forall|j: int| 0 <= j < i ==> is_digit(#[trigger] digits[j]),
            value as nat == value_of_digits(digits.subrange(0, i as int)),
        decreases n - 4 - i,
    {
        let c = name.as_str().get_char(i);
        if !('0' <= c && c <= '9') {
            assert(!is_digit(digits[i as int]));
            return None;
        }
        let d = (c as u32 - '0' as u32) as u64;
        assert(digits.subrange(0, i + 1).drop_last() =~= digits.subrange(0, i as int));
        assert(value_of_digits(digits.subrange(0, i + 1)) == value_of_digits(digits.subrange(0, i as int)) * 10 + d);
        if value > (u64::MAX - d) / 10 {
            proof {
                if forall|j: int| 0 <= j < digits.len() ==> is_digit(#[trigger] digits[j]) {
                    lemma_digits_prefix_monotone(digits, i as int + 1);
                }
            }
            return None;
        }
        value = value * 10 + d;
        i = i + 1;
    }
    assert(digits.subrange(0, i as int) =~= digits);
    Some(value)
}

proof fn lemma_digits_prefix_monotone(s: Seq<char>, k: int)
    requires
        0 <= k <= s.len(),
        forall|j: int| 0 <= j < s.len() ==> is_digit(#[trigger] s[j]),
    ensures
        value_of_digits(s.subrange(0, k)) <= value_of_digits(s),
    decreases s.len() - k,
{
    if k < s.len() {
        lemma_digits_prefix_monotone(s, k + 1);
        assert(s.subrange(0, k + 1).drop_last() =~= s.subrange(0, k));
    } else {
        assert(s.subrange(0, k) =~= s);
    }
}

impl Chunk {
    /// A chunk with the given index and size limit (1 GiB when none is given).
    pub fn new(index: ChunkIndex, max_chunk_size: Option<u64>) -> (r: Chunk)
        ensures
            r.index == index,
            r.max_chunk_size == chunk_size_or_default(max_chunk_size),
    {
        Chunk { index, max_chunk_size: Self::get_chunk_size(max_chunk_size) }
    }

    pub fn get_chunk_size(chunk_size: Option<u64>) -> (r: u64)
        ensures
            r == chunk_size_or_default(chunk_size),
    {
        match chunk_size {
            Some(s) => s,
            None => MAX_CHUNK_SIZE,
        }
    }

    /// Returns chunk index (0 for `0.db3`, 1 for `1.db3`, ...).
    pub fn index(&self) -> (r: ChunkIndex)
        ensures
            r == self.index,
    {
        self.index
    }

    /// Name of the chunk's file.
    pub fn filename(&self) -> (r: String)
        ensures
            r@ == chunk_name(self.index as nat),
    {
        chunk_index_to_name(self.index)
    }

    pub fn name_to_index(chunk_name: String) -> (r: Option<ChunkIndex>)
        ensures
            r == chunk_index_of(chunk_name@),
    {
        chunk_name_to_index(chunk_name)
    }

    pub fn index_to_name(chunk_index: ChunkIndex) -> (r: String)
        ensures
            r@ == chunk_name(chunk_index as nat),
    {
        chunk_index_to_name(chunk_index)
    }

    /// Checks that a chunk may take one more append, given the current size of
    /// its file (`None` where the file does not exist). The check comes before
    /// the write, so the write that crosses the limit is allowed.
    pub fn validate_chunk_size(&self, file_size: Option<u64>) -> (r: ChunkResult<()>)
        ensures
            r == size_check(file_size, self.max_chunk_size),
    {
        match file_size {
            None => Err(ChunkError::ChunkFileDoesNotExist),
            Some(len) => if len >= self.max_chunk_size {
                Err(ChunkError::ChunkTooLarge)
            } else {
                Ok(())
            },
        }
    }

    /// Opens the chunk with the given index, given the size of its file
    /// (`None` where the file does not exist).
    pub fn try_open(index: ChunkIndex, max_chunk_size: Option<u64>, file_size: Option<u64>) -> (r:
        ChunkResult<Chunk>)
        ensures
            match size_check(file_size, chunk_size_or_default(max_chunk_size)) {
                Ok(_) => r == Ok::<Chunk, ChunkError>(
                    Chunk { index, max_chunk_size: chunk_size_or_default(max_chunk_size) },
                ),
                Err(e) => r == Err::<Chunk, ChunkError>(e),
            },
    {
        let chunk = Chunk::new(index, max_chunk_size);
        match chunk.validate_chunk_size(file_size) {
            Ok(_) => Ok(chunk),
            Err(e) => Err(e),
        }
    }

    /// Sweeps chunk indices upward from `index` and settles on the first chunk
    /// that still has room. `sizes[k]` is the size of the existing file of chunk
    /// `index + k`; the file of chunk `index + sizes.len()` does not exist, so
    /// the sweep creates it when every existing chunk is full.
    pub fn try_new_from(index: ChunkIndex, max_chunk_size: Option<u64>, sizes: &[u64]) -> (r:
        ChunkSlot)
        requires
            index + sizes@.len() <= u64::MAX,
        ensures
            r == sweep_from(index, max_chunk_size, sizes@),
            r.chunk().max_chunk_size == chunk_size_or_default(max_chunk_size),
            index <= r.chunk().index <= index + sizes@.len(),
            forall|k: int|
                0 <= k < r.chunk().index - index ==> #[trigger] sizes@[k] >= chunk_size_or_default(
                    max_chunk_size,
                ),
            r is Open ==> r.chunk().index < index + sizes@.len() && sizes@[r.chunk().index
                - index] < chunk_size_or_default(max_chunk_size),
            r is Create ==> r.chunk().index == index + sizes@.len(),
    {
        let max = Self::get_chunk_size(max_chunk_size);
        let mut k: usize = 0;
        assert(sizes@.subrange(0, sizes@.len() as int) =~= sizes@);
        while k < sizes.len()
            invariant
                k <= sizes@.len(),
                index + sizes@.len() <= u64::MAX,
                max == chunk_size_or_default(max_chunk_size),
                forall|j: int| 0 <= j < k ==> #[trigger] sizes@[j] >= max,
                sweep_from(index, max_chunk_size, sizes@) == sweep_from(
                    (index + k) as u64,
                    max_chunk_size,
                    sizes@.subrange(k as int, sizes@.len() as int),
                ),
            decreases sizes@.len() - k,
        {
            let current = index + k as u64;
            assert(sizes@.subrange(k as int, sizes@.len() as int).drop_first() =~= sizes@.subrange(
                k + 1,
                sizes@.len() as int,
            ));
            match Chunk::try_open(current, max_chunk_size, Some(sizes[k])) {
                Ok(chunk) => {
                    return ChunkSlot::Open(chunk);
                },
                Err(_) => {},
            }
            k = k + 1;
        }
        assert(sizes@.subrange(k as int, sizes@.len() as int) =~= Seq::<u64>::empty());
        ChunkSlot::Create(Chunk::new(index + k as u64, max_chunk_size))
    }

    /// `try_new_from` starting at chunk 0.
    pub fn try_new(max_chunk_size: Option<u64>, sizes: &[u64]) -> (r: ChunkSlot)
        requires
            sizes@.len() <= u64::MAX,
        ensures
            r == sweep_from(0, max_chunk_size, sizes@),
            r.chunk().max_chunk_size == chunk_size_or_default(max_chunk_size),
            r.chunk().index <= sizes@.len(),
            forall|k: int|
                0 <= k < r.chunk().index ==> #[trigger] sizes@[k] >= chunk_size_or_default(
                    max_chunk_size,
                ),
            r is Open ==> r.chunk().index < sizes@.len() && sizes@[r.chunk().index as int]
                < chunk_size_or_default(max_chunk_size),
            r is Create ==> r.chunk().index == sizes@.len(),
    {
        Self::try_new_from(0, max_chunk_size, sizes)
    }

    /// The chunk that follows this one, with the same size limit; its file is
    /// to be created empty.
    pub fn create_extended(&self) -> (r: Chunk)
        requires
            self.index < u64::MAX,
        ensures
            r.index == self.index + 1,
            r.max_chunk_size == self.max_chunk_size,
    {
        Chunk { index: self.index + 1, max_chunk_size: self.max_chunk_size }
    }
}

/// One append into a chunk whose size is one byte under its limit passes the
/// size check; after it wrote at least one byte, the next append is refused.
pub proof fn lemma_append_at_limit(max_chunk_size: u64, written: u64)
    requires
        max_chunk_size >= 1,
        written >= 1,
        max_chunk_size - 1 + written <= u64::MAX,
    ensures
        size_check(Some((max_chunk_size - 1) as u64), max_chunk_size) == Ok::<(), ChunkError>(()),
        size_check(Some((max_chunk_size - 1 + written) as u64), max_chunk_size) == Err::<
            (),
            ChunkError,
        >(ChunkError::ChunkTooLarge),
{
}

} // verus!
