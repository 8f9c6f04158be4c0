use vstd::prelude::*;

verus! {

/// `i * dim + dim <= len` bounds the start of row `i`.
proof fn lemma_row_in_bounds(i: int, dim: int, len: int)
    requires
        0 <= i,
        0 <= dim,
        i * dim + dim <= len,
    ensures
        0 <= i * dim <= len,
{
    assert(0 <= i * dim) by (nonlinear_arith)
        requires
            0 <= i,
            0 <= dim,
    ;
}

/// Facts about `len / dim` when `dim` divides `len`.
proof fn lemma_div_exact(len: int, dim: int)
    requires
        0 <= len,
        0 < dim,
        len % dim == 0,
    ensures
        (len / dim) * dim == len,
        (len + dim) / dim == len / dim + 1,
        (len + dim) % dim == 0,
{
    vstd::arithmetic::div_mod::lemma_fundamental_div_mod(len, dim);
    vstd::arithmetic::div_mod::lemma_add_mod_noop(len, dim, dim);
    vstd::arithmetic::div_mod::lemma_mod_self_0(dim);
    vstd::arithmetic::div_mod::lemma_small_mod(0, dim as nat);
    vstd::arithmetic::div_mod::lemma_div_plus_one(len, dim);
    assert((len / dim) * dim == dim * (len / dim)) by (nonlinear_arith);
}

/// Row `i` of a row-major buffer with rows of `dim` elements.
pub open spec fn row<T>(data: Seq<T>, dim: int, i: int) -> Seq<T> {
    data.subrange(i * dim, i * dim + dim)
}

/// Fixed-dimension vectors stored back to back in one buffer; the vector
/// with index `i` occupies `data[i * dim .. (i + 1) * dim]`.
pub struct VectorStorage<T> {
    data: Vec<T>,
    dim: usize,
}

impl<T> VectorStorage<T> {
    /// The number of components of each vector.
    pub closed spec fn dimension(&self) -> nat {
        self.dim as nat
    }

    /// The flat buffer.
    pub closed spec fn data(&self) -> Seq<T> {
        self.data@
    }

    /// The number of stored vectors.
    pub open spec fn num_vectors(&self) -> nat {
        if self.dimension() == 0 {
            0
        } else {
            self.data().len() / self.dimension()
        }
    }

    /// The stored vector with index `i`.
    pub open spec fn vector(&self, i: int) -> Seq<T> {
        row(self.data(), self.dimension() as int, i)
    }

    /// The buffer holds whole vectors only.
    pub open spec fn wf(&self) -> bool {
        &&& self.dimension() > 0 ==> self.data().len() % self.dimension() == 0
        &&& self.dimension() == 0 ==> self.data().len() == 0
    }

    /// An empty storage for vectors of `dim` components.
    pub fn new(dim: usize) -> (s: Self)
        ensures
            s.wf(),
            s.dimension() == dim,
            s.data() == Seq::<T>::empty(),
            s.num_vectors() == 0,
    {
        proof {
            if dim > 0 {
                vstd::arithmetic::div_mod::lemma_small_mod(0, dim as nat);
            }
        }
        VectorStorage { data: Vec::new(), dim }
    }

    /// Appends `v` and returns its index, the number of vectors stored
    /// before the call.
    pub fn add_vector(&mut self, v: Vec<T>) -> (idx: usize)
        requires
            old(self).wf(),
            old(self).dimension() > 0,
            v@.len() == old(self).dimension(),
        ensures
            final(self).wf(),
            idx == old(self).num_vectors(),
            final(self).dimension() == old(self).dimension(),
            final(self).data() == old(self).data() + v@,
            final(self).num_vectors() == old(self).num_vectors() + 1,
            final(self).vector(idx as int) == v@,
            forall|i: int| 0 <= i < old(self).num_vectors() ==> #[trigger] final(self).vector(i) == old(self).vector(i),
    {
        let ghost pre = self.data@;
        let ghost added = v@;
        let idx = self.data.len() / self.dim;
        let mut v = v;
        self.data.append(&mut v);
        proof {
            let d = self.dim as int;
            let n = pre.len() as int;
            lemma_div_exact(pre.len() as int, d);
            assert(idx * d == pre.len());
            assert(self.vector(idx as int) =~= added);
            assert forall|i: int| 0 <= i < n / d implies #[trigger] self.vector(i) == row(pre, d, i) by {
                assert(i + 1 <= n / d);
                assert((i + 1) * d <= (n / d) * d) by (nonlinear_arith)
                    requires
                        i + 1 <= n / d,
                        0 < d,
                ;
                assert((i + 1) * d == i * d + d) by (nonlinear_arith);
                lemma_row_in_bounds(i, d, pre.len() as int);
                assert(self.vector(i) =~= row(pre, d, i));
            }
        }
        idx
    }
    /// The vector with index `idx`.
    pub fn get_vector(&self, idx: usize) -> (r: &[T])
        requires
            idx * self.dimension() + self.dimension() <= self.data().len(),
        ensures
            r@ == self.vector(idx as int),
    {
        let len = self.data.len();
        proof {
            lemma_row_in_bounds(idx as int, self.dim as int, len as int);
        }
        let start = idx * self.dim;
        &self.data[start..start + self.dim]
    }
}

/// A buffer of `capacity` rows of `dim` elements, every element set to the
/// fill value at creation; row `i` is `data[i * dim .. (i + 1) * dim]`.
pub struct AlignedVec<T> {
    data: Vec<T>,
    dim: usize,
}

impl<T: Copy> AlignedVec<T> {
    /// The number of elements of each row.
    pub closed spec fn dimension(&self) -> nat {
        self.dim as nat
    }

    /// The flat buffer.
    pub closed spec fn data(&self) -> Seq<T> {
        self.data@
    }

    /// Row `i` of the buffer.
    pub open spec fn row(&self, i: int) -> Seq<T> {
        row(self.data(), self.dimension() as int, i)
    }

    /// A buffer of `capacity * dim` elements, all equal to `fill`.
    pub fn with_capacity(dim: usize, capacity: usize, fill: T) -> (s: Self)
        requires
            capacity * dim <= usize::MAX,
        ensures
            s.dimension() == dim,
            s.data().len() == capacity * dim,
            forall|i: int| 0 <= i < s.data().len() ==> #[trigger] s.data()[i] == fill,
    {
        let total: usize = capacity * dim;
        let mut data: Vec<T> = Vec::with_capacity(total);
        let mut i: usize = 0;
        while i < total
            invariant
                i <= total,
                data@.len() == i,
                forall|k: int| 0 <= k < i ==> #[trigger] data@[k] == fill,
            decreases total - i,
        {
            data.push(fill);
            i = i + 1;
        }
        AlignedVec { data, dim }
    }

    /// Row `idx` of the buffer.
    pub fn get(&self, idx: usize) -> (r: &[T])
        requires
            idx * self.dimension() + self.dimension() <= self.data().len(),
        ensures
            r@ == self.row(idx as int),
    {
        let len = self.data.len();
        proof {
            lemma_row_in_bounds(idx as int, self.dim as int, len as int);
        }
        let start = idx * self.dim;
        &self.data[start..start + self.dim]
    }
}

} // verus!
