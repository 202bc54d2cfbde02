//! Tensor descriptors, as compiled code passes them to and from its callers.

use crate::bytes;
use crate::bytes::ByteOrder;
use crate::row_major;
use vstd::arithmetic::mul::*;
use vstd::prelude::*;

verus! {

/// What a tensor descriptor says.
#[verifier::ext_equal]
pub struct DescriptorView {
    /// Address of the allocation.
    pub allocated: usize,
    /// Address of the first element of the allocation.
    pub aligned: usize,
    /// Distance, in elements, of the tensor's first element from `aligned`.
    pub offset: usize,
    pub sizes: Seq<usize>,
    pub strides: Seq<usize>,
    /// Size of an element in bytes. Not part of the descriptor in memory.
    pub elem_size: usize,
}

impl DescriptorView {
    /// The distance, in elements, from the aligned address to the element at `idxs`.
    pub open spec fn element_at(self, idxs: Seq<nat>) -> nat {
        self.offset as nat + row_major::dot(idxs, row_major::nats(self.strides))
    }

    /// The distance, in elements, from the aligned address to the element that comes
    /// `lin`-th in row-major order.
    pub open spec fn element(self, lin: nat) -> nat {
        self.element_at(row_major::delinearize(row_major::nats(self.sizes), lin))
    }

    /// The words of the descriptor in memory.
    pub open spec fn words(self) -> Seq<usize> {
        seq![self.allocated, self.aligned, self.offset] + self.sizes + self.strides
    }

    /// The products of the leading sizes are machine words, so that multiplying the sizes
    /// up from the first one does not overflow.
    pub open spec fn countable(self) -> bool {
        forall|k: int|
            0 < k <= self.sizes.len() ==> row_major::product(#[trigger] row_major::nats(self.sizes).take(k)) <= usize::MAX
    }

    /// Every element lies in a memory of `len` elements that begins at the aligned address.
    pub open spec fn within(self, len: nat) -> bool {
        forall|lin: nat| lin < row_major::product(row_major::nats(self.sizes)) ==> #[trigger] self.element(lin) < len
    }

    /// The largest index in each dimension.
    pub open spec fn last_index(self) -> Seq<nat> {
        Seq::new(self.sizes.len(), |d: int| (self.sizes[d] - 1) as nat)
    }

    /// One past the distance, in elements, from the aligned address to the element that lies
    /// farthest from it, or zero if there are no elements.
    pub open spec fn reach(self) -> nat {
        if row_major::product(row_major::nats(self.sizes)) == 0 {
            0
        } else {
            self.element_at(self.last_index()) + 1
        }
    }

    /// `memory` with `src` written to the first `n` elements, in row-major order.
    pub open spec fn written<T>(self, memory: Seq<T>, src: Seq<T>, n: nat) -> Seq<T>
        decreases n,
    {
        if n == 0 {
            memory
        } else {
            self.written(memory, src, (n - 1) as nat).update(
                self.element((n - 1) as nat) as int,
                src[n - 1],
            )
        }
    }

    /// The elements in row-major order.
    pub open spec fn read<T>(self, memory: Seq<T>) -> Seq<T> {
        Seq::new(row_major::product(row_major::nats(self.sizes)), |lin: int| memory[self.element(lin as nat) as int])
    }

    /// No two elements share a place in memory.
    pub open spec fn injective(self) -> bool {
        forall|a: nat, b: nat|
            a < b < row_major::product(row_major::nats(self.sizes)) ==> #[trigger] self.element(a) != #[trigger] self.element(b)
    }
}

proof fn lemma_dot_bound(a: Seq<nat>, b: Seq<nat>, strides: Seq<nat>, n: nat)
    requires
        forall|d: int| 0 <= d < n ==> #[trigger] a[d] <= b[d],
    ensures
        row_major::dot_upto(a, strides, n) <= row_major::dot_upto(b, strides, n),
    decreases n,
{
    if n > 0 {
        lemma_dot_bound(a, b, strides, (n - 1) as nat);
        assert(a[n - 1] <= b[n - 1]);
        lemma_mul_inequality(a[n - 1] as int, b[n - 1] as int, strides[n - 1] as int);
    }
}

/// Every element lies within the reach of a tensor, and one of them at its very end.
pub proof fn law_reach(descriptor: DescriptorView)
    requires
        descriptor.sizes.len() == descriptor.strides.len(),
    ensures
        descriptor.within(descriptor.reach()),
        descriptor.reach() > 0 <==> row_major::product(row_major::nats(descriptor.sizes)) > 0,
        descriptor.reach() > 0 ==> exists|lin: nat|
            lin < row_major::product(row_major::nats(descriptor.sizes))
                && #[trigger] descriptor.element(lin) + 1 == descriptor.reach(),
{
    let sizes = row_major::nats(descriptor.sizes);
    let strides = row_major::nats(descriptor.strides);
    let last = descriptor.last_index();
    row_major::lemma_product_positive(sizes);
    if row_major::product(sizes) > 0 {
        assert forall|d: int| 0 <= d < sizes.len() implies #[trigger] last[d] < sizes[d] by {
            assert(sizes[d] != 0);
        }
        row_major::lemma_linearize(sizes, last);
        let lin = row_major::linearize(sizes, last);
        assert(descriptor.element(lin) + 1 == descriptor.reach());
        assert forall|lin: nat| lin < row_major::product(sizes) implies #[trigger] descriptor.element(
            lin,
        ) < descriptor.reach() by {
            row_major::lemma_delinearize(sizes, lin);
            let idxs = row_major::delinearize(sizes, lin);
            assert forall|d: int| 0 <= d < sizes.len() implies #[trigger] idxs[d] <= last[d] by {
                assert(idxs[d] < sizes[d]);
            }
            lemma_dot_bound(idxs, last, strides, sizes.len());
        }
    }
}

/// The bytes of a sequence of words.
pub open spec fn words_bytes(words: Seq<usize>, order: ByteOrder) -> Seq<u8>
    decreases words.len(),
{
    if words.len() == 0 {
        Seq::empty()
    } else {
        words_bytes(words.drop_last(), order) + bytes::ordered_bytes(
            words.last() as nat,
            bytes::word_size(),
            order,
        )
    }
}

/// The word whose bytes stand at word position `i`.
pub open spec fn word_at(data: Seq<u8>, i: int, order: ByteOrder) -> nat {
    bytes::ordered_value(data.subrange(i * bytes::word_size(), (i + 1) * bytes::word_size()), order)
}

/// What the descriptor bytes of a tensor of the given rank and element size say.
pub open spec fn described(
    data: Seq<u8>,
    rank: nat,
    elem_size: usize,
    order: ByteOrder,
) -> DescriptorView {
    DescriptorView {
        allocated: word_at(data, 0, order) as usize,
        aligned: word_at(data, 1, order) as usize,
        offset: word_at(data, 2, order) as usize,
        sizes: Seq::new(rank, |i: int| word_at(data, 3 + i, order) as usize),
        strides: Seq::new(rank, |i: int| word_at(data, 3 + rank + i, order) as usize),
        elem_size,
    }
}

/// A tensor descriptor, with conversions to and from its form in memory.
///
/// Addresses are machine words. The functions that copy elements take the memory that
/// begins at the aligned address.
#[derive(Debug)]
pub struct TensorDesciptor {
    allocated_ptr: usize,
    aligned_ptr: usize,
    offset: usize,
    sizes: Vec<usize>,
    strides: Vec<usize>,
    elem_size: usize,
}

impl View for TensorDesciptor {
    type V = DescriptorView;

    closed spec fn view(&self) -> DescriptorView {
        DescriptorView {
            allocated: self.allocated_ptr,
            aligned: self.aligned_ptr,
            offset: self.offset,
            sizes: self.sizes@,
            strides: self.strides@,
            elem_size: self.elem_size,
        }
    }
}

impl TensorDesciptor {
    #[verifier::type_invariant]
    spec fn one_stride_per_size(self) -> bool {
        self.sizes@.len() == self.strides@.len()
    }

    /// A row-major tensor with the given extents and element size, at `elems_ptr`.
    pub fn new(dims: Vec<usize>, elem_size: usize, elems_ptr: usize) -> (r: Self)
        requires
            dims@.len() > 0,
            forall|d: int|
                0 <= d < dims@.len() ==> #[trigger] row_major::row_major_stride(row_major::nats(dims@), d) <= usize::MAX,
        ensures
            r@.allocated == elems_ptr,
            r@.aligned == elems_ptr,
            r@.offset == 0,
            r@.sizes == dims@,
            r@.strides.len() == dims@.len(),
            forall|d: int|
                0 <= d < dims@.len() ==> #[trigger] r@.strides[d] as nat == row_major::row_major_stride(
                    row_major::nats(dims@),
                    d,
                ),
            r@.elem_size == elem_size,
    {
        let rank: usize = dims.len();
        let mut strides: Vec<usize> = vec![0usize; rank];
        strides.set(rank - 1, 1);
        proof {
            assert(row_major::nats(dims@).skip(rank as int) =~= Seq::<nat>::empty());
        }
        let mut i: usize = rank - 1;
        while i > 0
            invariant
                rank == dims@.len() == strides@.len(),
                i < rank,
                forall|d: int|
                    0 <= d < dims@.len() ==> #[trigger] row_major::row_major_stride(row_major::nats(dims@), d) <= usize::MAX,
                forall|d: int|
                    i <= d < rank ==> #[trigger] strides@[d] as nat == row_major::row_major_stride(row_major::nats(dims@), d),
            decreases i,
        {
            i -= 1;
            proof {
                let sizes = row_major::nats(dims@);
                let rest = sizes.skip(i + 1);
                row_major::lemma_product_first(rest);
                assert(rest.skip(1) =~= sizes.skip(i + 2));
                assert(strides@[i + 1] as nat == row_major::row_major_stride(sizes, i + 1));
                assert(row_major::row_major_stride(sizes, i as int) <= usize::MAX);
                lemma_mul_is_commutative(
                    strides@[i + 1] as int,
                    dims@[i + 1] as int,
                );
            }
            let stride: usize = strides[i + 1] * dims[i + 1];
            strides.set(i, stride);
        }
        TensorDesciptor {
            allocated_ptr: elems_ptr,
            aligned_ptr: elems_ptr,
            offset: 0,
            sizes: dims,
            strides,
            elem_size,
        }
    }

    /// The address of the allocation.
    pub fn allocated_ptr(&self) -> (r: usize)
        ensures
            r == self@.allocated,
    {
        self.allocated_ptr
    }

    /// The aligned address.
    pub fn aligned_ptr(&self) -> (r: usize)
        ensures
            r == self@.aligned,
    {
        self.aligned_ptr
    }

    /// The offset of the first element, in elements.
    pub fn offset(&self) -> (r: usize)
        ensures
            r == self@.offset,
    {
        self.offset
    }

    /// The extent of each dimension.
    pub fn sizes(&self) -> (r: &[usize])
        ensures
            r@ == self@.sizes,
    {
        self.sizes.as_slice()
    }

    /// The stride of each dimension, in elements.
    pub fn strides(&self) -> (r: &[usize])
        ensures
            r@ == self@.strides,
            r@.len() == self@.sizes.len(),
    {
        proof {
            use_type_invariant(self);
        }
        self.strides.as_slice()
    }

    /// The number of elements: the product of all extents, which is one if there are none.
    pub fn num_elements(&self) -> (r: usize)
        requires
            self@.countable(),
        ensures
            r == row_major::product(row_major::nats(self@.sizes)),
    {
        let rank: usize = self.sizes.len();
        let mut total: usize = 1;
        let mut i: usize = 0;
        assert(row_major::nats(self.sizes@).take(0) =~= Seq::<nat>::empty());
        while i < rank
            invariant
                i <= rank == self.sizes@.len(),
                self@.sizes == self.sizes@,
                self@.countable(),
                total == row_major::product(row_major::nats(self.sizes@).take(i as int)),
            decreases rank - i,
        {
            proof {
                let next = row_major::nats(self.sizes@).take(i + 1);
                assert(next.drop_last() =~= row_major::nats(self.sizes@).take(i as int));
                assert(row_major::product(next) <= usize::MAX);
            }
            total = total * self.sizes[i];
            i += 1;
        }
        assert(row_major::nats(self.sizes@).take(rank as int) =~= row_major::nats(self.sizes@));
        total
    }

    /// The number of elements, if the products of the leading sizes are machine words.
    fn checked_count(&self) -> (r: Option<usize>)
        ensures
            match r {
                Some(n) => self@.countable() && n == row_major::product(
                    row_major::nats(self@.sizes),
                ),
                None => !self@.countable(),
            },
    {
        let rank: usize = self.sizes.len();
        let ghost sizes = row_major::nats(self.sizes@);
        let mut total: usize = 1;
        let mut i: usize = 0;
        assert(sizes.take(0) =~= Seq::<nat>::empty());
        while i < rank
            invariant
                i <= rank == self.sizes@.len(),
                self@.sizes == self.sizes@,
                sizes == row_major::nats(self.sizes@),
                total == row_major::product(sizes.take(i as int)),
                forall|k: int|
                    0 < k <= i ==> row_major::product(#[trigger] sizes.take(k)) <= usize::MAX,
            decreases rank - i,
        {
            proof {
                assert(sizes.take(i + 1).drop_last() =~= sizes.take(i as int));
            }
            match total.checked_mul(self.sizes[i]) {
                Some(next) => {
                    total = next;
                },
                None => {
                    assert(row_major::product(sizes.take(i + 1)) > usize::MAX);
                    return None;
                },
            }
            i += 1;
        }
        assert(sizes.take(rank as int) =~= sizes);
        Some(total)
    }

    /// How many elements a memory that begins at the aligned address must have to hold all
    /// elements of the tensor. There is no such number if the elements, or the distance to the
    /// last of them, cannot be counted in a machine word.
    pub fn reach(&self) -> (r: Option<usize>)
        ensures
            r is Some <==> self@.countable() && self@.reach() <= usize::MAX,
            r matches Some(n) ==> n == self@.reach() && self@.within(n as nat),
    {
        proof {
            use_type_invariant(self);
            law_reach(self@);
        }
        let count: usize = match self.checked_count() {
            Some(count) => count,
            None => {
                return None;
            },
        };
        if count == 0 {
            return Some(0);
        }
        let rank: usize = self.sizes.len();
        let ghost last = self@.last_index();
        let ghost strides = row_major::nats(self.strides@);
        proof {
            row_major::lemma_product_positive(row_major::nats(self.sizes@));
        }
        let mut sum: usize = self.offset;
        let mut i: usize = 0;
        while i < rank
            invariant
                i <= rank == self.sizes@.len() == self.strides@.len(),
                self@.sizes == self.sizes@,
                self@.strides == self.strides@,
                self@.offset == self.offset,
                last == self@.last_index(),
                strides == row_major::nats(self.strides@),
                row_major::no_zero(row_major::nats(self.sizes@)),
                row_major::product(row_major::nats(self.sizes@)) > 0,
                sum == self.offset + row_major::dot_upto(last, strides, i as nat),
            decreases rank - i,
        {
            proof {
                assert(row_major::nats(self.sizes@)[i as int] != 0);
                row_major::lemma_dot_upto_monotone(last, strides, (i + 1) as nat, rank as nat);
                assert(self@.reach() > self.offset + row_major::dot_upto(
                    last,
                    strides,
                    (i + 1) as nat,
                ));
            }
            let term: Option<usize> = (self.sizes[i] - 1).checked_mul(self.strides[i]);
            let next: Option<usize> = match term {
                Some(term) => sum.checked_add(term),
                None => None,
            };
            match next {
                Some(next) => {
                    sum = next;
                },
                None => {
                    return None;
                },
            }
            i += 1;
        }
        sum.checked_add(1)
    }

    /// The size of an element in bytes.
    pub fn elem_size(&self) -> (r: usize)
        ensures
            r == self@.elem_size,
    {
        self.elem_size
    }

    /// The size of all elements in bytes.
    pub fn total_size_in_bytes(&self) -> (r: usize)
        requires
            self@.countable(),
            row_major::product(row_major::nats(self@.sizes)) * self@.elem_size as nat <= usize::MAX,
        ensures
            r == row_major::product(row_major::nats(self@.sizes)) * self@.elem_size as nat,
    {
        self.num_elements() * self.elem_size()
    }

    /// The descriptor as compiled code reads it, in the machine's byte order.
    pub fn build_ir_descriptor(&self) -> (r: Vec<u8>)
        ensures
            exists|order: ByteOrder| r@ == #[trigger] words_bytes(self@.words(), order),
    {
        self.build_ir_descriptor_ordered(bytes::native_byte_order())
    }

    /// The descriptor as compiled code reads it, in the given byte order.
    pub fn build_ir_descriptor_ordered(&self, order: ByteOrder) -> (r: Vec<u8>)
        ensures
            r@ == words_bytes(self@.words(), order),
    {
        let mut data: Vec<u8> = Vec::new();
        let ghost words = self@.words();
        proof {
            assert(words.take(0) =~= Seq::<usize>::empty());
        }
        push_next_word(&mut data, self.allocated_ptr, order, Ghost(words), Ghost(0));
        push_next_word(&mut data, self.aligned_ptr, order, Ghost(words), Ghost(1));
        push_next_word(&mut data, self.offset, order, Ghost(words), Ghost(2));
        let mut i: usize = 0;
        while i < self.sizes.len()
            invariant
                i <= self.sizes@.len(),
                words == self@.words(),
                self@.sizes == self.sizes@,
                data@ == words_bytes(words.take(3 + i), order),
            decreases self.sizes@.len() - i,
        {
            assert(words[3 + i] == self.sizes@[i as int]);
            push_next_word(&mut data, self.sizes[i], order, Ghost(words), Ghost(3 + i));
            i += 1;
        }
        let mut j: usize = 0;
        while j < self.strides.len()
            invariant
                j <= self.strides@.len(),
                words == self@.words(),
                self@.sizes == self.sizes@,
                self@.strides == self.strides@,
                data@ == words_bytes(words.take(3 + self.sizes@.len() + j), order),
            decreases self.strides@.len() - j,
        {
            assert(words[3 + self.sizes@.len() + j] == self.strides@[j as int]);
            push_next_word(
                &mut data,
                self.strides[j],
                order,
                Ghost(words),
                Ghost(3 + self.sizes@.len() + j),
            );
            j += 1;
        }
        assert(words.take(words.len() as int) =~= words);
        data
    }

    /// Reads a descriptor from memory, in the machine's byte order.
    ///
    /// The rank and the element size are not stored in memory and are taken as given.
    pub fn from_ir_descriptor(descriptor: &[u8], rank: usize, elem_size: usize) -> (r: Self)
        requires
            (3 + 2 * rank) * bytes::word_size() <= descriptor@.len(),
        ensures
            exists|order: ByteOrder|
                r@ == #[trigger] described(descriptor@, rank as nat, elem_size, order),
    {
        Self::from_ir_descriptor_ordered(descriptor, rank, elem_size, bytes::native_byte_order())
    }

    /// Reads a descriptor from memory, in the given byte order.
    pub fn from_ir_descriptor_ordered(
        descriptor: &[u8],
        rank: usize,
        elem_size: usize,
        order: ByteOrder,
    ) -> (r: Self)
        requires
            (3 + 2 * rank) * bytes::word_size() <= descriptor@.len(),
        ensures
            r@ == described(descriptor@, rank as nat, elem_size, order),
    {
        let words: usize = descriptor.len() / (usize::BITS / 8) as usize;
        proof {
            bytes::lemma_word_fits(0);
            let w = bytes::word_size() as int;
            let n = 3 + 2 * rank;
            assert(n * w <= descriptor@.len());
            assert(descriptor@.len() / bytes::word_size() >= n) by (nonlinear_arith)
                requires
                    n * w <= descriptor@.len(),
                    w == bytes::word_size() as int,
                    w > 0,
                    n >= 0,
            ;
        }
        let allocated_ptr: usize = nth_word(descriptor, 0, order);
        let aligned_ptr: usize = nth_word(descriptor, 1, order);
        let offset: usize = nth_word(descriptor, 2, order);
        let mut sizes: Vec<usize> = Vec::with_capacity(rank);
        let mut strides: Vec<usize> = Vec::with_capacity(rank);
        let mut i: usize = 0;
        while i < rank
            invariant
                i <= rank,
                3 + 2 * rank <= words,
                words == descriptor@.len() / bytes::word_size(),
                sizes@ == Seq::new(
                    i as nat,
                    |k: int| word_at(descriptor@, 3 + k, order) as usize,
                ),
            decreases rank - i,
        {
            sizes.push(nth_word(descriptor, 3 + i, order));
            i += 1;
        }
        let mut j: usize = 0;
        while j < rank
            invariant
                j <= rank,
                3 + 2 * rank <= words,
                words == descriptor@.len() / bytes::word_size(),
                strides@ == Seq::new(
                    j as nat,
                    |k: int| word_at(descriptor@, 3 + rank + k, order) as usize,
                ),
            decreases rank - j,
        {
            strides.push(nth_word(descriptor, 3 + rank + j, order));
            j += 1;
        }
        let r = TensorDesciptor { allocated_ptr, aligned_ptr, offset, sizes, strides, elem_size };
        assert(r@ =~= described(descriptor@, rank as nat, elem_size, order));
        r
    }

    /// The number of dimensions.
    pub fn rank(&self) -> (r: usize)
        ensures
            r == self@.sizes.len(),
    {
        self.sizes.len()
    }

    /// The multi-index of the element that comes `linear_idx`-th in row-major order.
    pub fn delinearize_index(&self, linear_idx: usize) -> (r: Vec<usize>)
        requires
            row_major::no_zero(row_major::nats(self@.sizes)),
        ensures
            row_major::nats(r@) == row_major::delinearize(
                row_major::nats(self@.sizes),
                linear_idx as nat,
            ),
    {
        let rank: usize = self.rank();
        let ghost sizes = row_major::nats(self.sizes@);
        let mut idxs: Vec<usize> = vec![0usize; rank];
        let mut rest: usize = linear_idx;
        let mut d: usize = rank;
        assert(sizes.take(rank as int) =~= sizes);
        assert(row_major::delinearize(sizes, linear_idx as nat) =~= row_major::delinearize(
            sizes.take(d as int),
            rest as nat,
        ) + row_major::nats(idxs@).skip(d as int));
        while d > 0
            invariant
                d <= rank == self.sizes@.len() == idxs@.len(),
                sizes == row_major::nats(self.sizes@),
                row_major::no_zero(sizes),
                row_major::delinearize(sizes, linear_idx as nat) == row_major::delinearize(
                    sizes.take(d as int),
                    rest as nat,
                ) + row_major::nats(idxs@).skip(d as int),
            decreases d,
        {
            d -= 1;
            let dim: usize = self.sizes[d];
            let ghost rest_before = rest as nat;
            let ghost idxs_before = row_major::nats(idxs@);
            proof {
                assert(sizes[d as int] != 0);
            }
            idxs.set(d, rest % dim);
            rest = rest / dim;
            proof {
                let outer = sizes.take(d + 1);
                assert(outer.drop_last() =~= sizes.take(d as int));
                assert(outer.last() == dim);
                assert(row_major::delinearize(outer, rest_before) == row_major::delinearize(
                    sizes.take(d as int),
                    rest as nat,
                ).push(idxs@[d as int] as nat));
                assert(row_major::delinearize(outer, rest_before) + idxs_before.skip(d + 1)
                    =~= row_major::delinearize(sizes.take(d as int), rest as nat)
                    + row_major::nats(idxs@).skip(d as int));
            }
        }
        assert(row_major::delinearize(sizes.take(0), rest as nat) + row_major::nats(idxs@).skip(0)
            =~= row_major::nats(idxs@));
        idxs
    }

    /// The distance, in elements, from the aligned address to the element at `idxs`.
    pub fn strided_offset(&self, idxs: &[usize]) -> (r: usize)
        requires
            self@.element_at(row_major::nats(idxs@)) <= usize::MAX,
        ensures
            r == self@.element_at(row_major::nats(idxs@)),
    {
        let ghost indices = row_major::nats(idxs@);
        let ghost strides = row_major::nats(self.strides@);
        let n: usize = if idxs.len() <= self.strides.len() {
            idxs.len()
        } else {
            self.strides.len()
        };
        let mut sum: usize = 0;
        let mut i: usize = 0;
        while i < n
            invariant
                i <= n <= idxs@.len(),
                n <= self.strides@.len(),
                indices == row_major::nats(idxs@),
                strides == row_major::nats(self.strides@),
                self.offset as nat + row_major::dot_upto(indices, strides, n as nat) <= usize::MAX,
                sum == row_major::dot_upto(indices, strides, i as nat),
            decreases n - i,
        {
            proof {
                row_major::lemma_dot_upto_monotone(indices, strides, (i + 1) as nat, n as nat);
                lemma_mul_nonnegative(idxs@[i as int] as int, self.strides@[i as int] as int);
            }
            sum = sum + idxs[i] * self.strides[i];
            i += 1;
        }
        self.offset + sum
    }

    /// Copies all elements into `dst` in row-major order, whatever the strides are.
    ///
    /// `memory` is what lies at the aligned address. What `dst` held before is lost.
    pub fn copy_to_vec<T: Copy>(&self, memory: &[T], dst: &mut Vec<T>)
        requires
            vstd::layout::size_of::<T>() == self@.elem_size,
            self@.countable(),
            self@.within(memory@.len()),
        ensures
            final(dst)@ == self@.read(memory@),
    {
        let total: usize = self.num_elements();
        let len: usize = memory.len();
        dst.clear();
        let mut lin: usize = 0;
        while lin < total
            invariant
                lin <= total == row_major::product(row_major::nats(self@.sizes)),
                len == memory@.len(),
                self@.within(memory@.len()),
                dst@ == self@.read(memory@).take(lin as int),
            decreases total - lin,
        {
            proof {
                row_major::lemma_product_positive(row_major::nats(self@.sizes));
                assert(self@.element(lin as nat) < memory@.len());
            }
            let idxs: Vec<usize> = self.delinearize_index(lin);
            let off: usize = self.strided_offset(idxs.as_slice());
            dst.push(memory[off]);
            lin += 1;
            assert(self@.read(memory@).take(lin as int) =~= self@.read(memory@).take(
                lin - 1,
            ).push(memory@[off as int]));
        }
        assert(self@.read(memory@).take(total as int) =~= self@.read(memory@));
    }

    /// Copies `src`, in row-major order, into the memory of the tensor, honoring the strides.
    ///
    /// `memory` is what lies at the aligned address.
    pub fn copy_from_slice<T: Copy>(&self, src: &[T], memory: &mut [T])
        requires
            vstd::layout::size_of::<T>() == self@.elem_size,
            self@.countable(),
            src@.len() == row_major::product(row_major::nats(self@.sizes)),
            self@.within(old(memory)@.len()),
        ensures
            final(memory)@ == self@.written(old(memory)@, src@, src@.len()),
    {
        let total: usize = src.len();
        let len: usize = memory.len();
        let mut lin: usize = 0;
        while lin < total
            invariant
                lin <= total == src@.len() == row_major::product(row_major::nats(self@.sizes)),
                len == memory@.len() == old(memory)@.len(),
                self@.within(old(memory)@.len()),
                memory@ == self@.written(old(memory)@, src@, lin as nat),
            decreases total - lin,
        {
            proof {
                row_major::lemma_product_positive(row_major::nats(self@.sizes));
                assert(self@.element(lin as nat) < len);
            }
            let idxs: Vec<usize> = self.delinearize_index(lin);
            let off: usize = self.strided_offset(idxs.as_slice());
            memory[off] = src[lin];
            lin += 1;
        }
    }
}

/// Appends the bytes of word number `i` of `words`.
fn push_next_word(
    data: &mut Vec<u8>,
    word: usize,
    order: ByteOrder,
    words: Ghost<Seq<usize>>,
    i: Ghost<int>,
)
    requires
        0 <= i@ < words@.len(),
        words@[i@] == word,
        old(data)@ == words_bytes(words@.take(i@), order),
    ensures
        final(data)@ == words_bytes(words@.take(i@ + 1), order),
{
    proof {
        let next = words@.take(i@ + 1);
        assert(next.drop_last() =~= words@.take(i@));
        assert(next.last() == word);
    }
    bytes::push_word(data, word, order);
}

/// Reads word number `i`.
fn nth_word(data: &[u8], i: usize, order: ByteOrder) -> (word: usize)
    requires
        i < data@.len() / bytes::word_size(),
    ensures
        word == word_at(data@, i as int, order),
{
    let size: usize = (usize::BITS / 8) as usize;
    let len: usize = data.len();
    proof {
        bytes::lemma_word_fits(0);
        if bytes::word_size() == 4 {
            assert((i + 1) * 4 <= len);
        } else {
            assert((i + 1) * 8 <= len);
        }
        assert((i + 1) * size == i * size + size) by (nonlinear_arith);
    }
    bytes::read_word(data, i * size, order)
}

proof fn lemma_words_bytes(words: Seq<usize>, order: ByteOrder, i: int)
    requires
        0 <= i < words.len(),
    ensures
        words_bytes(words, order).len() == words.len() * bytes::word_size(),
        word_at(words_bytes(words, order), i, order) == words[i],
        0 <= i * bytes::word_size() <= (i + 1) * bytes::word_size() <= words.len() * bytes::word_size(),
    decreases words.len(),
{
    let n = words.len();
    let w = bytes::word_size();
    let init = words.drop_last();
    let head = words_bytes(init, order);
    let data = words_bytes(words, order);
    bytes::lemma_word_fits(words.last());
    bytes::lemma_ordered_value_of_bytes(words.last() as nat, w, order);
    if init.len() > 0 {
        lemma_words_bytes(init, order, if i < n - 1 { i } else { 0 });
    } else {
        lemma_mul_basics(w as int);
    }
    assert(n * w == (n - 1) * w + w) by (nonlinear_arith)
        requires
            n > 0,
    ;
    assert(0 <= i * w <= (i + 1) * w <= n * w) by (nonlinear_arith)
        requires
            0 <= i < n,
            w >= 0,
    ;
    assert((i + 1) * w == i * w + w) by (nonlinear_arith);
    if i == n - 1 {
        assert(data.subrange(i * w, (i + 1) * w) =~= bytes::ordered_bytes(
            words.last() as nat,
            w,
            order,
        ));
    } else {
        assert(data.subrange(i * w, (i + 1) * w) =~= head.subrange(i * w, (i + 1) * w));
        assert(init[i] == words[i]);
    }
}

/// A descriptor that is written to memory and read back with the tensor's rank and element
/// size says the same as before, in either byte order.
pub proof fn law_descriptor_round_trip(d: DescriptorView, order: ByteOrder)
    requires
        d.sizes.len() == d.strides.len(),
    ensures
        words_bytes(d.words(), order).len() == (3 + 2 * d.sizes.len()) * bytes::word_size(),
        described(words_bytes(d.words(), order), d.sizes.len(), d.elem_size, order) == d,
{
    let words = d.words();
    let data = words_bytes(words, order);
    let rank = d.sizes.len();
    lemma_words_bytes(words, order, 0);
    lemma_words_bytes(words, order, 1);
    lemma_words_bytes(words, order, 2);
    let back = described(data, rank, d.elem_size, order);
    assert forall|i: int| 0 <= i < rank implies back.sizes[i] == d.sizes[i] by {
        lemma_words_bytes(words, order, 3 + i);
    }
    assert forall|i: int| 0 <= i < rank implies back.strides[i] == d.strides[i] by {
        lemma_words_bytes(words, order, 3 + rank + i);
    }
    assert(back =~= d);
}

/// The elements of a row-major tensor at offset zero lie one after the other.
pub proof fn law_row_major_is_contiguous(d: DescriptorView, lin: nat)
    requires
        d.offset == 0,
        d.strides.len() == d.sizes.len(),
        forall|i: int|
            0 <= i < d.sizes.len() ==> #[trigger] d.strides[i] as nat
                == row_major::row_major_stride(row_major::nats(d.sizes), i),
        lin < row_major::product(row_major::nats(d.sizes)),
    ensures
        d.element(lin) == lin,
{
    let sizes = row_major::nats(d.sizes);
    let strides = row_major::nats(d.strides);
    row_major::lemma_delinearize(sizes, lin);
    assert forall|i: int| 0 <= i < sizes.len() implies #[trigger] strides[i]
        == row_major::row_major_stride(sizes, i) by {
        assert(d.strides[i] as nat == row_major::row_major_stride(sizes, i));
    }
    row_major::lemma_dot_row_major(sizes, row_major::delinearize(sizes, lin), strides);
}

/// What is read stands in row-major order: the element at given indices is where as many elements
/// come before it as there are positions before them.
pub proof fn law_read_in_order<T>(d: DescriptorView, memory: Seq<T>, idxs: Seq<nat>)
    requires
        row_major::in_bounds(row_major::nats(d.sizes), idxs),
    ensures
        ({
            let sizes = row_major::nats(d.sizes);
            let strides = row_major::nats(d.strides);
            let lin = row_major::linearize(sizes, idxs);
            &&& lin < d.read(memory).len()
            &&& d.read(memory)[lin as int] == memory[d.offset + row_major::dot(idxs, strides)]
        }),
{
    row_major::lemma_linearize(row_major::nats(d.sizes), idxs);
}

/// Writing the elements and reading them back gives what was written, provided that no two
/// elements share a place in memory.
pub proof fn law_copy_round_trip<T>(d: DescriptorView, memory: Seq<T>, src: Seq<T>)
    requires
        src.len() == row_major::product(row_major::nats(d.sizes)),
        d.within(memory.len()),
        d.injective(),
    ensures
        d.read(d.written(memory, src, src.len())) == src,
{
    let after = d.written(memory, src, src.len());
    assert forall|lin: int| 0 <= lin < src.len() implies #[trigger] d.read(after)[lin]
        == src[lin] by {
        lemma_written(d, memory, src, src.len(), lin as nat);
    }
    assert(d.read(after) =~= src);
}

proof fn lemma_written<T>(d: DescriptorView, memory: Seq<T>, src: Seq<T>, n: nat, lin: nat)
    requires
        n <= src.len() == row_major::product(row_major::nats(d.sizes)),
        lin < n,
        d.within(memory.len()),
        d.injective(),
    ensures
        d.written(memory, src, n).len() == memory.len(),
        d.written(memory, src, n)[d.element(lin) as int] == src[lin as int],
    decreases n,
{
    let last = (n - 1) as nat;
    assert(d.element(last) < memory.len());
    assert(d.element(lin) < memory.len());
    lemma_written_len(d, memory, src, last);
    if lin < last {
        lemma_written(d, memory, src, last, lin);
        assert(d.element(lin) != d.element(last));
    }
}

proof fn lemma_written_len<T>(d: DescriptorView, memory: Seq<T>, src: Seq<T>, n: nat)
    requires
        n <= row_major::product(row_major::nats(d.sizes)),
        d.within(memory.len()),
    ensures
        d.written(memory, src, n).len() == memory.len(),
    decreases n,
{
    if n > 0 {
        assert(d.element((n - 1) as nat) < memory.len());
        lemma_written_len(d, memory, src, (n - 1) as nat);
    }
}

/// What lies outside the tensor is left alone by a write.
pub proof fn law_copy_keeps_the_rest<T>(d: DescriptorView, memory: Seq<T>, src: Seq<T>, at: int)
    requires
        src.len() == row_major::product(row_major::nats(d.sizes)),
        d.within(memory.len()),
        0 <= at < memory.len(),
        forall|lin: nat| lin < row_major::product(row_major::nats(d.sizes)) ==> #[trigger] d.element(lin) != at,
    ensures
        d.written(memory, src, src.len())[at] == memory[at],
{
    lemma_untouched(d, memory, src, src.len(), at);
}

proof fn lemma_untouched<T>(d: DescriptorView, memory: Seq<T>, src: Seq<T>, n: nat, at: int)
    requires
        n <= src.len() == row_major::product(row_major::nats(d.sizes)),
        d.within(memory.len()),
        0 <= at < memory.len(),
        forall|lin: nat| lin < row_major::product(row_major::nats(d.sizes)) ==> #[trigger] d.element(lin) != at,
    ensures
        d.written(memory, src, n)[at] == memory[at],
    decreases n,
{
    if n > 0 {
        let last = (n - 1) as nat;
        lemma_untouched(d, memory, src, last, at);
        lemma_written_len(d, memory, src, last);
        assert(d.element(last) != at);
        assert(d.element(last) < memory.len());
    }
}

} // verus!
