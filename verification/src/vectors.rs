//! The file format of saved vectors: all components in order, four bytes
//! each, the least significant byte first.
use crate::double::Single;
use crate::rows::{joined, lemma_joined_push};
use vstd::prelude::*;

verus! {

/// Byte `k` of a component, counted from the least significant.
pub open spec fn component_byte(x: Single, k: int) -> u8 {
    if k == 0 {
        (x.bits % 0x100) as u8
    } else if k == 1 {
        (x.bits / 0x100 % 0x100) as u8
    } else if k == 2 {
        (x.bits / 0x1_0000 % 0x100) as u8
    } else {
        (x.bits / 0x100_0000) as u8
    }
}

/// The bytes of a list of components.
pub open spec fn component_bytes(components: Seq<Single>) -> Seq<u8> {
    Seq::new(components.len() * 4, |i: int| component_byte(components[i / 4], i % 4))
}

/// The components of a list of vectors.
pub open spec fn contents(vectors: Seq<Vec<Single>>) -> Seq<Seq<Single>> {
    vectors.map_values(|v: Vec<Single>| v@)
}

/// The number whose four bytes start at `at`.
pub open spec fn component_at(bytes: Seq<u8>, at: int) -> int {
    bytes[at] + 0x100 * bytes[at + 1] + 0x1_0000 * bytes[at + 2] + 0x100_0000 * bytes[at + 3]
}

/// The bytes of a vector file.
pub fn encode_vectors(vectors: &[Vec<Single>]) -> (bytes: Vec<u8>)
    ensures
        bytes@ == component_bytes(joined(contents(vectors@))),
{
    let mut bytes: Vec<u8> = Vec::new();
    let mut k: usize = 0;
    assert(contents(vectors@.take(0)) =~= Seq::empty());
    while k < vectors.len()
        invariant
            k <= vectors@.len(),
            bytes@ =~= component_bytes(joined(contents(vectors@.take(k as int)))),
        decreases vectors@.len() - k,
    {
        let ghost done = joined(contents(vectors@.take(k as int)));
        let vector = &vectors[k];
        let mut j: usize = 0;
        assert(vector@.take(0) =~= Seq::empty());
        assert(done + vector@.take(0) =~= done);
        while j < vector.len()
            invariant
                j <= vector@.len(),
                bytes@ =~= component_bytes(done + vector@.take(j as int)),
            decreases vector@.len() - j,
        {
            let ghost before = done + vector@.take(j as int);
            let ghost after = done + vector@.take(j + 1);
            push_component(&mut bytes, vector[j]);
            proof {
                assert(after =~= before.push(vector@[j as int]));
            }
            j += 1;
        }
        proof {
            assert(vector@.take(j as int) =~= vector@);
            assert(contents(vectors@.take(k + 1)) =~= contents(vectors@.take(k as int)).push(vector@));
            lemma_joined_push(contents(vectors@.take(k as int)), vector@);
        }
        k += 1;
    }
    assert(vectors@.take(k as int) =~= vectors@);
    bytes
}

/// Appends the four bytes of one component.
fn push_component(bytes: &mut Vec<u8>, x: Single)
    ensures
        forall|components: Seq<Single>| #[trigger]
            component_bytes(components) == old(bytes)@ ==> final(bytes)@ == component_bytes(components.push(x)),
{
    bytes.push((x.bits % 0x100) as u8);
    bytes.push((x.bits / 0x100 % 0x100) as u8);
    bytes.push((x.bits / 0x1_0000 % 0x100) as u8);
    bytes.push((x.bits / 0x100_0000) as u8);
    proof {
        assert forall|components: Seq<Single>| #[trigger] component_bytes(components) == old(bytes)@ implies bytes@
            == component_bytes(components.push(x)) by {
            let n = components.len();
            assert(bytes@.len() == 4 * n + 4);
            assert forall|i: int| 0 <= i < bytes@.len() implies bytes@[i] == component_byte(
                components.push(x)[i / 4],
                i % 4,
            ) by {
                if i < 4 * n {
                    assert(bytes@[i] == old(bytes)@[i]);
                    assert(old(bytes)@[i] == component_bytes(components)[i]);
                }
            }
            assert(bytes@ =~= component_bytes(components.push(x)));
        }
    }
}

/// A vector file holds four bytes per component, and reading four bytes gives
/// back the component that they were written for.
pub proof fn law_components_read_back(components: Seq<Single>)
    ensures
        component_bytes(components).len() == 4 * components.len(),
        forall|i: int|
            0 <= i < components.len() ==> component_at(component_bytes(components), 4 * i) == (
            #[trigger] components[i]).bits,
{
    assert forall|i: int| 0 <= i < components.len() implies component_at(component_bytes(components), 4 * i) == (
    #[trigger] components[i]).bits by {
        let bytes = component_bytes(components);
        let x = components[i];
        assert(bytes[4 * i] == component_byte(x, 0));
        assert(bytes[4 * i + 1] == component_byte(x, 1));
        assert(bytes[4 * i + 2] == component_byte(x, 2));
        assert(bytes[4 * i + 3] == component_byte(x, 3));
    }
}

/// In a file of vectors of one dimension, component `j` of vector `k` is read
/// back from byte `4 * (k * dimension + j)`.
pub proof fn law_vectors_read_back(vectors: Seq<Seq<Single>>, dimension: nat, k: int, j: int)
    requires
        crate::rows::uniform(vectors, dimension),
        0 <= k < vectors.len(),
        0 <= j < dimension,
    ensures
        component_bytes(joined(vectors)).len() == 4 * (vectors.len() * dimension),
        component_at(component_bytes(joined(vectors)), 4 * (k * dimension + j)) == vectors[k][j].bits,
{
    crate::rows::law_uniform_rows_fill_a_matrix(vectors, dimension);
    crate::rows::law_uniform_rows_are_a_matrix(vectors, dimension, k, j);
    law_components_read_back(joined(vectors));
    assert(vectors[k][j] == joined(vectors)[k * dimension + j]);
}

/// A vector file holds four bytes for every component of every vector, and
/// component `j` of vector `k` is read back, the least significant byte first,
/// from behind the components of the vectors before it and the `j` before it.
pub proof fn law_file_reads_back(vectors: &[Vec<Single>], bytes: Vec<u8>, k: int, j: int)
    requires
        call_ensures(encode_vectors, (vectors,), bytes),
        0 <= k < vectors@.len(),
        0 <= j < vectors@[k]@.len(),
    ensures
        ({
            let components = vectors@.map_values(|v: Vec<Single>| v@);
            let at = 4 * (components.take(k).flatten().len() + j);
            &&& bytes@.len() == 4 * components.flatten().len()
            &&& 0 <= at <= bytes@.len() - 4
            &&& bytes@[at] + 0x100 * bytes@[at + 1] + 0x1_0000 * bytes@[at + 2] + 0x100_0000 * bytes@[at + 3]
                == vectors@[k]@[j].bits
        }),
{
    let components = vectors@.map_values(|v: Vec<Single>| v@);
    assert(contents(vectors@) =~= components);
    crate::rows::law_joined_is_flat(components);
    crate::rows::law_rows_follow_each_other(components, k, j);
    law_components_read_back(components.flatten());
    let i = components.take(k).flatten().len() + j;
    assert(components.flatten()[i] == vectors@[k]@[j]);
}

/// One more vector adds four bytes per component to the end of the file and
/// leaves what is there as it is. The file of no vectors is empty.
pub proof fn law_files_grow_at_the_end(
    vectors: &[Vec<Single>],
    more: &[Vec<Single>],
    bytes: Vec<u8>,
    longer: Vec<u8>,
)
    requires
        call_ensures(encode_vectors, (vectors,), bytes),
        call_ensures(encode_vectors, (more,), longer),
        more@.len() == vectors@.len() + 1,
        more@.drop_last() == vectors@,
    ensures
        vectors@.len() == 0 ==> bytes@.len() == 0,
        longer@.len() == bytes@.len() + 4 * more@.last()@.len(),
        longer@.take(bytes@.len() as int) == bytes@,
        forall|j: int, b: int|
            0 <= j < more@.last()@.len() && 0 <= b < 4 ==> #[trigger] longer@[bytes@.len() + 4 * j + b] == (
            more@.last()@[j].bits as int / (if b == 0 {
                1int
            } else if b == 1 {
                0x100
            } else if b == 2 {
                0x1_0000
            } else {
                0x100_0000
            })) % 0x100,
{
    let last = more@.last();
    let before = joined(contents(vectors@));
    assert(contents(more@) =~= contents(vectors@).push(last@));
    lemma_joined_push(contents(vectors@), last@);
    assert(longer@.take(bytes@.len() as int) =~= bytes@);
    assert forall|j: int, b: int| 0 <= j < last@.len() && 0 <= b < 4 implies #[trigger] longer@[bytes@.len() + 4 * j
        + b] == component_byte(last@[j], b) by {
        let i = bytes@.len() + 4 * j + b;
        assert(i / 4 == before.len() + j && i % 4 == b);
        assert((before + last@)[before.len() + j] == last@[j]);
    }
}

} // verus!
