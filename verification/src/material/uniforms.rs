//! The uniform block of a material or pipeline: named uniforms packed one after
//! another into a byte buffer, which `set_uniform` writes by name.
use vstd::prelude::*;
use crate::chars::same_text;

verus! {

/// The types of shader uniforms, as the graphics backend knows them.
#[derive(Clone, Copy, Debug, PartialEq, Eq, Structural)]
pub enum UniformType {
    Float1,
    Float2,
    Float3,
    Float4,
    Int1,
    Int2,
    Int3,
    Int4,
    Mat4,
}

/// The byte size of a uniform type: 4 bytes for each 32-bit component.
pub open spec fn type_size(t: UniformType) -> int {
    match t {
        UniformType::Float1 | UniformType::Int1 => 4,
        UniformType::Float2 | UniformType::Int2 => 8,
        UniformType::Float3 | UniformType::Int3 => 12,
        UniformType::Float4 | UniformType::Int4 => 16,
        UniformType::Mat4 => 64,
    }
}

impl UniformType {
    /// Byte size for a given UniformType
    pub fn size(&self) -> (s: usize)
        ensures
            s == type_size(*self),
    {
        match self {
            UniformType::Float1 | UniformType::Int1 => 4,
            UniformType::Float2 | UniformType::Int2 => 8,
            UniformType::Float3 | UniformType::Int3 => 12,
            UniformType::Float4 | UniformType::Int4 => 16,
            UniformType::Mat4 => 64,
        }
    }
}

/// A uniform: its name, its type, and where its bytes start in the block.
#[derive(Clone, Debug)]
pub struct Uniform {
    pub name: String,
    pub uniform_type: UniformType,
    pub byte_offset: usize,
}

/// The total size of uniforms of types `ts`.
pub open spec fn total_size(ts: Seq<UniformType>) -> int
    decreases ts.len(),
{
    if ts.len() == 0 {
        0
    } else {
        total_size(ts.drop_last()) + type_size(ts.last())
    }
}

/// The types of a list of named uniforms.
pub open spec fn types_of(u: Seq<(String, UniformType)>) -> Seq<UniformType> {
    u.map_values(|e: (String, UniformType)| e.1)
}

/// The first of `names` that is `name`.
pub open spec fn first_named(names: Seq<Seq<char>>, name: Seq<char>) -> Option<int>
    decreases names.len(),
{
    if names.len() == 0 {
        None
    } else if names[0] == name {
        Some(0)
    } else {
        match first_named(names.drop_first(), name) {
            Some(i) => Some(i + 1),
            None => None,
        }
    }
}

proof fn lemma_total_size_prefix(ts: Seq<UniformType>, i: int)
    requires
        0 <= i < ts.len(),
    ensures
        total_size(ts.subrange(0, i + 1)) == total_size(ts.subrange(0, i)) + type_size(ts[i]),
{
    assert(ts.subrange(0, i + 1).drop_last() =~= ts.subrange(0, i));
}

proof fn lemma_total_size_grows(ts: Seq<UniformType>, i: int, j: int)
    requires
        0 <= i <= j <= ts.len(),
    ensures
        total_size(ts.subrange(0, i)) <= total_size(ts.subrange(0, j)),
    decreases j - i,
{
    if i < j {
        lemma_total_size_grows(ts, i, j - 1);
        lemma_total_size_prefix(ts, j - 1);
    }
}

proof fn lemma_first_named(names: Seq<Seq<char>>, name: Seq<char>)
    ensures
        match first_named(names, name) {
            Some(i) => 0 <= i < names.len() && names[i] == name && forall|j: int| 0 <= j < i ==> names[j] != name,
            None => forall|j: int| 0 <= j < names.len() ==> names[j] != name,
        },
    decreases names.len(),
{
    if names.len() > 0 && names[0] != name {
        lemma_first_named(names.drop_first(), name);
        assert forall|j: int| 0 < j < names.len() implies names[j] == names.drop_first()[j - 1] by {}
    }
}

/// What `set_uniform` did.
#[derive(Clone, Copy, Debug, PartialEq, Eq, Structural)]
pub enum UniformWrite {
    Written,
    /// No uniform has this name; nothing was written.
    UnknownName,
    /// The value's size is not the uniform's; nothing was written.
    WrongSize,
}

/// Uniforms packed in the order given, and the bytes they are set to.
pub struct UniformBlock {
    uniforms: Vec<Uniform>,
    data: Vec<u8>,
}

impl UniformBlock {
    /// The names of the uniforms, in order.
    pub closed spec fn names(&self) -> Seq<Seq<char>> {
        self.uniforms@.map_values(|u: Uniform| u.name@)
    }

    /// The types of the uniforms, in order.
    pub closed spec fn types(&self) -> Seq<UniformType> {
        self.uniforms@.map_values(|u: Uniform| u.uniform_type)
    }

    /// Where each uniform's bytes start.
    pub closed spec fn offsets(&self) -> Seq<int> {
        self.uniforms@.map_values(|u: Uniform| u.byte_offset as int)
    }

    pub closed spec fn bytes(&self) -> Seq<u8> {
        self.data@
    }

    /// Each uniform starts where the ones before it end, and the bytes hold all of them.
    pub open spec fn wf(&self) -> bool {
        &&& self.names().len() == self.types().len()
        &&& self.offsets().len() == self.types().len()
        &&& self.bytes().len() == total_size(self.types())
        &&& forall|i: int|
            0 <= i < self.types().len() ==> #[trigger] self.offsets()[i] == total_size(self.types().subrange(0, i))
    }

    /// Packs `uniforms` one after another, from offset 0, with all bytes 0.
    pub fn new(uniforms: Vec<(String, UniformType)>) -> (b: UniformBlock)
        requires
            uniforms@.len() * 64 <= usize::MAX,
        ensures
            b.wf(),
            b.types() == types_of(uniforms@),
            b.names() == uniforms@.map_values(|e: (String, UniformType)| e.0@),
            forall|i: int| 0 <= i < b.bytes().len() ==> b.bytes()[i] == 0,
    {
        let ghost ts = types_of(uniforms@);
        let n = uniforms.len();
        let mut packed: Vec<Uniform> = Vec::new();
        let mut offset: usize = 0;
        let mut k: usize = 0;
        while k < n
            invariant
                n == uniforms@.len(),
                n * 64 <= usize::MAX,
                ts == types_of(uniforms@),
                0 <= k <= n,
                packed@.len() == k,
                offset == total_size(ts.subrange(0, k as int)),
                offset <= k * 64,
                forall|i: int| 0 <= i < k ==> {
                    &&& (#[trigger] packed@[i]).name@ == uniforms@[i].0@
                    &&& packed@[i].uniform_type == uniforms@[i].1
                    &&& packed@[i].byte_offset == total_size(ts.subrange(0, i))
                },
            decreases n - k,
        {
            let (name, kind) = &uniforms[k];
            let size = kind.size();
            proof {
                lemma_total_size_prefix(ts, k as int);
            }
            packed.push(Uniform { name: name.clone(), uniform_type: *kind, byte_offset: offset });
            offset = offset + size;
            k = k + 1;
        }
        let mut data: Vec<u8> = Vec::new();
        let mut m: usize = 0;
        while m < offset
            invariant
                0 <= m <= offset,
                data@.len() == m,
                forall|i: int| 0 <= i < m ==> data@[i] == 0,
            decreases offset - m,
        {
            data.push(0);
            m = m + 1;
        }
        let b = UniformBlock { uniforms: packed, data };
        proof {
            assert(ts.subrange(0, n as int) =~= ts);
            assert(b.types() =~= ts);
            assert(b.names() =~= uniforms@.map_values(|e: (String, UniformType)| e.0@));
        }
        b
    }

    /// Writes `value`, the bytes of a uniform's value, to the first uniform called
    /// `name`, if it has the size of that uniform's type.
    pub fn set_uniform(&mut self, name: &str, value: &[u8]) -> (w: UniformWrite)
        requires
            old(self).wf(),
        ensures
            final(self).wf(),
            final(self).names() == old(self).names(),
            final(self).types() == old(self).types(),
            final(self).offsets() == old(self).offsets(),
            match first_named(old(self).names(), name@) {
                None => w == UniformWrite::UnknownName && final(self).bytes() == old(self).bytes(),
                Some(i) => if value@.len() == type_size(old(self).types()[i]) {
                    &&& w == UniformWrite::Written
                    &&& final(self).bytes() == old(self).bytes().subrange(0, old(self).offsets()[i])
                        + value@ + old(self).bytes().subrange(
                        old(self).offsets()[i] + value@.len(),
                        old(self).bytes().len() as int,
                    )
                } else {
                    w == UniformWrite::WrongSize && final(self).bytes() == old(self).bytes()
                },
            },
    {
        proof {
            lemma_first_named(self.names(), name@);
        }
        let mut k: usize = 0;
        while k < self.uniforms.len()
            invariant
                0 <= k <= self.uniforms@.len(),
                forall|j: int| 0 <= j < k ==> self.names()[j] != name@,
            ensures
                0 <= k <= self.uniforms@.len(),
                forall|j: int| 0 <= j < k ==> self.names()[j] != name@,
                k < self.uniforms@.len() ==> self.names()[k as int] == name@,
            decreases self.uniforms@.len() - k,
        {
            if same_text(self.uniforms[k].name.as_str(), name) {
                break;
            }
            k = k + 1;
        }
        if k == self.uniforms.len() {
            return UniformWrite::UnknownName;
        }
        assert(self.names()[k as int] == name@);
        assert(first_named(self.names(), name@) == Some(k as int));
        let size = self.uniforms[k].uniform_type.size();
        let offset = self.uniforms[k].byte_offset;
        if value.len() != size {
            return UniformWrite::WrongSize;
        }
        let ghost ts = self.types();
        let ghost before = self.data@;
        proof {
            assert(self.offsets()[k as int] == offset);
            assert(self.types()[k as int] == self.uniforms@[k as int].uniform_type);
            lemma_total_size_prefix(ts, k as int);
            lemma_total_size_grows(ts, k + 1, ts.len() as int);
            assert(ts.subrange(0, ts.len() as int) =~= ts);
        }
        let mut i: usize = 0;
        while i < size
            invariant
                0 <= i <= size,
                size == value@.len(),
                offset + size <= self.data.len(),
                self.data@.len() == before.len(),
                forall|j: int| 0 <= j < offset ==> self.data@[j] == before[j],
                forall|j: int| offset + size <= j < before.len() ==> self.data@[j] == before[j],
                forall|j: int| 0 <= j < i ==> self.data@[offset + j] == value@[j],
                self.uniforms@ == old(self).uniforms@,
            decreases size - i,
        {
            self.data.set(offset + i, value[i]);
            i = i + 1;
        }
        assert(self.data@ =~= before.subrange(0, offset as int) + value@ + before.subrange(
            offset + value@.len(),
            before.len() as int,
        ));
        UniformWrite::Written
    }

    /// The bytes of the whole block, to hand to the GPU.
    pub fn data(&self) -> (d: &[u8])
        ensures
            d@ == self.bytes(),
    {
        self.data.as_slice()
    }
}

/// The uniforms that every material's shaders have, before its own.
pub fn builtin_uniforms() -> (u: Vec<(String, UniformType)>)
    ensures
        u@.len() == 3,
        u@[0].1 == UniformType::Mat4,
        u@[1].1 == UniformType::Mat4,
        u@[2].1 == UniformType::Float4,
{
    let mut u: Vec<(String, UniformType)> = Vec::new();
    u.push(("Projection".to_owned(), UniformType::Mat4));
    u.push(("Model".to_owned(), UniformType::Mat4));
    u.push(("_Time".to_owned(), UniformType::Float4));
    u
}


/// Writing one uniform leaves the bytes of every other uniform as they were: the
/// uniforms of a block do not overlap.
pub proof fn law_writing_a_uniform_keeps_the_others(
    block: UniformBlock,
    after: Seq<u8>,
    i: int,
    value: Seq<u8>,
    j: int,
)
    requires
        block.wf(),
        0 <= i < block.types().len(),
        0 <= j < block.types().len(),
        i != j,
        value.len() == type_size(block.types()[i]),
        after == block.bytes().subrange(0, block.offsets()[i]) + value + block.bytes().subrange(
            block.offsets()[i] + value.len(),
            block.bytes().len() as int,
        ),
    ensures
        after.subrange(block.offsets()[j], block.offsets()[j] + type_size(block.types()[j])) == block.bytes().subrange(
            block.offsets()[j],
            block.offsets()[j] + type_size(block.types()[j]),
        ),
{
    let ts = block.types();
    let oi = block.offsets()[i];
    let oj = block.offsets()[j];
    let sj = type_size(ts[j]);
    lemma_total_size_prefix(ts, i);
    lemma_total_size_prefix(ts, j);
    lemma_total_size_grows(ts, i + 1, ts.len() as int);
    lemma_total_size_grows(ts, j + 1, ts.len() as int);
    assert(ts.subrange(0, ts.len() as int) =~= ts);
    if j < i {
        lemma_total_size_grows(ts, j + 1, i);
        assert(oj + sj <= oi);
    } else {
        lemma_total_size_grows(ts, i + 1, j);
        assert(oi + value.len() <= oj);
    }
    assert(after.subrange(oj, oj + sj) =~= block.bytes().subrange(oj, oj + sj));
}

/// The number of 32-bit components of a uniform type: one to four for the vectors,
/// sixteen for a 4x4 matrix.
pub open spec fn components(t: UniformType) -> int {
    match t {
        UniformType::Float1 | UniformType::Int1 => 1,
        UniformType::Float2 | UniformType::Int2 => 2,
        UniformType::Float3 | UniformType::Int3 => 3,
        UniformType::Float4 | UniformType::Int4 => 4,
        UniformType::Mat4 => 16,
    }
}

/// A uniform takes 4 bytes for each of its 32-bit components, floats and integers
/// alike, and a matrix as much as four 4-component vectors.
pub proof fn law_uniform_size_is_four_bytes_per_component(t: UniformType)
    ensures
        type_size(t) == 4 * components(t),
        type_size(UniformType::Float1) == type_size(UniformType::Int1),
        type_size(UniformType::Float2) == type_size(UniformType::Int2),
        type_size(UniformType::Float3) == type_size(UniformType::Int3),
        type_size(UniformType::Float4) == type_size(UniformType::Int4),
        type_size(UniformType::Mat4) == 4 * type_size(UniformType::Float4),
{
}

/// The number of 32-bit components of uniforms of types `ts`, all together.
pub open spec fn total_components(ts: Seq<UniformType>) -> int
    decreases ts.len(),
{
    if ts.len() == 0 {
        0
    } else {
        total_components(ts.drop_last()) + components(ts.last())
    }
}

/// A block of uniforms holds 4 bytes for each 32-bit component of its uniforms.
pub proof fn law_block_size_is_four_bytes_per_component(ts: Seq<UniformType>)
    ensures
        total_size(ts) == 4 * total_components(ts),
    decreases ts.len(),
{
    if ts.len() > 0 {
        law_block_size_is_four_bytes_per_component(ts.drop_last());
        law_uniform_size_is_four_bytes_per_component(ts.last());
    }
}

/// `set_uniform` writes to the uniform whose name equals the given one, the first
/// such; a uniform whose name merely starts or ends like it is never chosen, and
/// there is none exactly when no uniform has that name.
pub proof fn law_uniform_found_by_exact_name(names: Seq<Seq<char>>, name: Seq<char>)
    ensures
        match first_named(names, name) {
            Some(i) => 0 <= i < names.len() && names[i] == name && forall|j: int| 0 <= j < i ==> names[j] != name,
            None => forall|j: int| 0 <= j < names.len() ==> names[j] != name,
        },
{
    lemma_first_named(names, name);
}

} // verus!
