//! Tensors of a loaded model.

use crate::engine::cache_model::lemma_index_of_unique;
use vstd::prelude::*;
use vstd::string::StringSliceAdditionalSpecFns;
use vstd::utf8::encode_utf8;

verus! {

/// Supported number formats of tensors.
#[derive(Debug, Clone, Copy, PartialEq, Eq, Structural)]
pub enum TensorDtype {
    Float32,
    Float16,
    BFloat16,
    Int32,
    Int64,
    Uint8,
}

impl TensorDtype {
    /// Bytes of one number.
    pub open spec fn spec_size_bytes(&self) -> nat {
        match self {
            TensorDtype::Float32 => 4,
            TensorDtype::Int32 => 4,
            TensorDtype::Float16 => 2,
            TensorDtype::BFloat16 => 2,
            TensorDtype::Int64 => 8,
            TensorDtype::Uint8 => 1,
        }
    }

    /// Bytes of one number.
    pub fn size_bytes(&self) -> (bytes: usize)
        ensures
            bytes == self.spec_size_bytes(),
    {
        match self {
            TensorDtype::Float32 => 4,
            TensorDtype::Int32 => 4,
            TensorDtype::Float16 => 2,
            TensorDtype::BFloat16 => 2,
            TensorDtype::Int64 => 8,
            TensorDtype::Uint8 => 1,
        }
    }
}

/// A tensor as it is read from a weight file.
#[derive(Debug)]
pub struct TensorData {
    pub name: String,
    pub shape: Vec<usize>,
    pub dtype: TensorDtype,
    pub data: Vec<u8>,
}

impl TensorData {
    /// Bytes of the tensor's data.
    pub fn memory_bytes(&self) -> (bytes: usize)
        ensures
            bytes == self.data@.len(),
    {
        self.data.len()
    }
}

/// Whether a name begins with a prefix, byte by byte in UTF-8.
pub open spec fn name_has_prefix(name: Seq<char>, prefix: Seq<char>) -> bool {
    encode_utf8(prefix).is_prefix_of(encode_utf8(name))
}

/// Whether a name begins with a prefix.
pub fn has_prefix(name: &str, prefix: &str) -> (begins: bool)
    ensures
        begins == name_has_prefix(name@, prefix@),
{
    let n = name.as_bytes();
    let p = prefix.as_bytes();
    if p.len() > n.len() {
        return false;
    }
    let mut i: usize = 0;
    while i < p.len()
        invariant
            i <= p@.len(),
            p@.len() <= n@.len(),
            n@ == encode_utf8(name@),
            p@ == encode_utf8(prefix@),
            forall|j: int| 0 <= j < i ==> p@[j] == n@[j],
        decreases p@.len() - i,
    {
        if p[i] != n[i] {
            proof {
                let front = n@.subrange(0, p@.len() as int);
                assert(front[i as int] == n@[i as int]);
                if p@.is_prefix_of(n@) {
                    assert(p@ =~= front);
                    assert(p@[i as int] == front[i as int]);
                }
            }
            return false;
        }
        i += 1;
    }
    assert(n@.subrange(0, p@.len() as int) =~= p@);
    true
}

/// The tensors whose names begin with a prefix, in their order.
pub open spec fn matching(tensors: Seq<TensorData>, prefix: Seq<char>) -> Seq<TensorData>
    decreases tensors.len(),
{
    if tensors.len() == 0 {
        tensors
    } else if name_has_prefix(tensors.last().name@, prefix) {
        matching(tensors.drop_last(), prefix).push(tensors.last())
    } else {
        matching(tensors.drop_last(), prefix)
    }
}

/// The bytes of the data of all tensors.
pub open spec fn data_bytes(tensors: Seq<TensorData>) -> nat
    decreases tensors.len(),
{
    if tensors.len() == 0 {
        0
    } else {
        data_bytes(tensors.drop_last()) + tensors.last().data@.len()
    }
}

/// The tensors of a model, each under its own name.
pub struct ModelWeights {
    tensors: Vec<TensorData>,
}

impl View for ModelWeights {
    type V = Seq<TensorData>;

    closed spec fn view(&self) -> Seq<TensorData> {
        self.tensors@
    }
}

impl ModelWeights {
    /// The names of the tensors.
    pub open spec fn names(&self) -> Seq<Seq<char>> {
        self@.map_values(|t: TensorData| t.name@)
    }

    /// No name stands twice.
    pub open spec fn wf(&self) -> bool {
        self.names().no_duplicates()
    }

    /// Weights without a tensor.
    pub fn new() -> (weights: Self)
        ensures
            weights.wf(),
            weights@.len() == 0,
    {
        ModelWeights { tensors: Vec::new() }
    }

    /// Number of tensors.
    pub fn len(&self) -> (n: usize)
        ensures
            n == self@.len(),
    {
        self.tensors.len()
    }

    /// Index of the tensor of a name.
    fn find(&self, name: &str) -> (index: Option<usize>)
        ensures
            match index {
                Some(i) => i < self@.len() && self.names()[i as int] == name@,
                None => !self.names().contains(name@),
            },
    {
        let wanted = name.to_string();
        let mut i: usize = 0;
        while i < self.tensors.len()
            invariant
                i <= self.tensors@.len(),
                wanted@ == name@,
                forall|j: int| 0 <= j < i ==> self.names()[j] != name@,
            decreases self.tensors@.len() - i,
        {
            if self.tensors[i].name == wanted {
                return Some(i);
            }
            i += 1;
        }
        None
    }

    /// Adds a tensor; it takes the place of one of the same name.
    pub fn insert(&mut self, tensor: TensorData)
        requires
            old(self).wf(),
        ensures
            final(self).wf(),
            final(self)@ == if old(self).names().contains(tensor.name@) {
                old(self)@.update(old(self).names().index_of(tensor.name@), tensor)
            } else {
                old(self)@.push(tensor)
            },
    {
        let found = self.find(tensor.name.as_str());
        match found {
            Some(at) => {
                proof {
                    lemma_index_of_unique(old(self).names(), at as int);
                }
                self.tensors[at] = tensor;
                assert(self.names() =~= old(self).names());
            },
            None => {
                self.tensors.push(tensor);
                proof {
                    assert(self.names() =~= old(self).names().push(tensor.name@));
                    crate::engine::scheduler_lemmas::lemma_push_distinct(
                        old(self).names(),
                        tensor.name@,
                    );
                }
            },
        }
    }

    /// The tensor of a name.
    pub fn get(&self, name: &str) -> (tensor: Option<&TensorData>)
        requires
            self.wf(),
        ensures
            tensor is Some <==> self.names().contains(name@),
            tensor is Some ==> *tensor->0 == self@[self.names().index_of(name@)],
    {
        match self.find(name) {
            Some(at) => {
                proof {
                    lemma_index_of_unique(self.names(), at as int);
                }
                Some(&self.tensors[at])
            },
            None => None,
        }
    }

    /// The tensors whose names begin with a prefix, in their order.
    pub fn get_by_prefix(&self, prefix: &str) -> (found: Vec<&TensorData>)
        ensures
            found@.map_values(|t: &TensorData| *t) == matching(self@, prefix@),
    {
        let mut found: Vec<&TensorData> = Vec::new();
        let mut i: usize = 0;
        assert(found@.map_values(|t: &TensorData| *t) =~= matching(self@.take(0), prefix@));
        while i < self.tensors.len()
            invariant
                i <= self.tensors@.len(),
                found@.map_values(|t: &TensorData| *t) == matching(self@.take(i as int), prefix@),
            decreases self.tensors@.len() - i,
        {
            let ghost before = found@.map_values(|t: &TensorData| *t);
            proof {
                assert(self@.take(i + 1).drop_last() =~= self@.take(i as int));
                assert(self@.take(i + 1).last() == self@[i as int]);
            }
            if has_prefix(self.tensors[i].name.as_str(), prefix) {
                found.push(&self.tensors[i]);
                assert(found@.map_values(|t: &TensorData| *t) =~= before.push(self@[i as int]));
            }
            i += 1;
        }
        assert(self@.take(i as int) =~= self@);
        found
    }

    /// The bytes of the data of all tensors, or `None` where they are no
    /// machine number.
    pub fn checked_memory_bytes(&self) -> (bytes: Option<usize>)
        ensures
            bytes is Some <==> data_bytes(self@) <= usize::MAX,
            bytes is Some ==> bytes->0 == data_bytes(self@),
    {
        let mut total: usize = 0;
        let mut i: usize = 0;
        assert(self@.take(0) =~= Seq::<TensorData>::empty());
        while i < self.tensors.len()
            invariant
                i <= self.tensors@.len(),
                total == data_bytes(self@.take(i as int)),
            decreases self.tensors@.len() - i,
        {
            proof {
                assert(self@.take(i + 1).drop_last() =~= self@.take(i as int));
                assert(self@.take(i + 1).last() == self@[i as int]);
            }
            match total.checked_add(self.tensors[i].data.len()) {
                Some(sum) => {
                    total = sum;
                },
                None => {
                    proof {
                        lemma_data_bytes_grow(self@, i + 1);
                    }
                    return None;
                },
            }
            i += 1;
        }
        assert(self@.take(i as int) =~= self@);
        Some(total)
    }

    /// The bytes of the data of all tensors.
    pub fn memory_bytes(&self) -> (bytes: usize)
        requires
            data_bytes(self@) <= usize::MAX,
        ensures
            bytes == data_bytes(self@),
    {
        match self.checked_memory_bytes() {
            Some(bytes) => bytes,
            None => 0,
        }
    }
}

/// The bytes of a front part of the tensors are no more than the bytes of
/// all.
pub proof fn lemma_data_bytes_grow(tensors: Seq<TensorData>, n: int)
    requires
        0 <= n <= tensors.len(),
    ensures
        data_bytes(tensors.take(n)) <= data_bytes(tensors),
    decreases tensors.len() - n,
{
    if n < tensors.len() {
        lemma_data_bytes_grow(tensors, n + 1);
        assert(tensors.take(n + 1).drop_last() =~= tensors.take(n));
    } else {
        assert(tensors.take(n) =~= tensors);
    }
}

} // verus!
