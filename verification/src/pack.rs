//! Block definitions: the read-only catalogue that generation and meshing
//! consult.

use crate::types::{DirMap, Direction, Side, SideMap};
use vstd::prelude::*;
use vstd::string::StringSliceAdditionalSpecFns;

verus! {

/// One block definition. `Q` is the renderable quad that the catalogue
/// carries; the world core only counts and copies quads.
#[derive(Debug)]
pub struct Block<Q> {
    /// Whether a face on that side fully hides the neighbour's face behind it.
    pub culls: DirMap<bool>,
    /// The quads to render for each side.
    pub mesh: SideMap<Vec<Q>>,
}

/// The most quads that a block may have for its chunk's quads to be
/// numbered in 32 bits whatever the chunk holds.
pub const MAX_BLOCK_QUADS: usize = 32767;

impl<Q> Block<Q> {
    /// The number of quads of the block, all sides together.
    pub open spec fn quad_count(&self) -> nat {
        self.mesh.west@.len() + self.mesh.east@.len() + self.mesh.south@.len()
            + self.mesh.north@.len() + self.mesh.down@.len() + self.mesh.up@.len()
            + self.mesh.none@.len()
    }

    /// Tells whether the block has no more than `MAX_BLOCK_QUADS` quads.
    pub fn is_light(&self) -> (r: bool)
        ensures
            r == (self.quad_count() <= MAX_BLOCK_QUADS),
    {
        let mut room: usize = MAX_BLOCK_QUADS;
        if self.mesh.west.len() > room {
            return false;
        }
        room = room - self.mesh.west.len();
        if self.mesh.east.len() > room {
            return false;
        }
        room = room - self.mesh.east.len();
        if self.mesh.south.len() > room {
            return false;
        }
        room = room - self.mesh.south.len();
        if self.mesh.north.len() > room {
            return false;
        }
        room = room - self.mesh.north.len();
        if self.mesh.down.len() > room {
            return false;
        }
        room = room - self.mesh.down.len();
        if self.mesh.up.len() > room {
            return false;
        }
        room = room - self.mesh.up.len();
        self.mesh.none.len() <= room
    }

    /// Whether the block hides nothing and shows nothing, as air does.
    pub open spec fn is_void(&self) -> bool {
        &&& forall|direction: Direction| !#[trigger] self.culls.at(direction)
        &&& forall|side: Side| (#[trigger] self.mesh.at(side))@.len() == 0
    }
}

impl<Q> Default for Block<Q> {
    /// The block that hides nothing and shows nothing.
    fn default() -> (block: Block<Q>)
        ensures
            block.is_void(),
    {
        Block {
            culls: DirMap {
                west: false,
                east: false,
                south: false,
                north: false,
                down: false,
                up: false,
            },
            mesh: SideMap {
                west: Vec::new(),
                east: Vec::new(),
                south: Vec::new(),
                north: Vec::new(),
                down: Vec::new(),
                up: Vec::new(),
                none: Vec::new(),
            },
        }
    }
}

/// How one name stands to another in the order of their bytes.
#[derive(Copy, Clone, Debug, PartialEq, Eq, Structural)]
pub enum NameOrder {
    Before,
    Same,
    After,
}

/// Whether `a` and `b` agree on their first `n` bytes.
pub open spec fn agree_upto(a: Seq<u8>, b: Seq<u8>, n: int) -> bool {
    &&& 0 <= n <= a.len()
    &&& n <= b.len()
    &&& forall|i: int| 0 <= i < n ==> a[i] == b[i]
}

/// Whether `a` and `b` part ways at position `n` with `a` the smaller:
/// `a` ends there and `b` goes on, or `a` holds the smaller byte.
pub open spec fn parts_below(a: Seq<u8>, b: Seq<u8>, n: int) -> bool {
    &&& agree_upto(a, b, n)
    &&& n < b.len()
    &&& n < a.len() ==> a[n] < b[n]
}

/// Whether `a` comes strictly before `b` in lexicographic byte order.
pub open spec fn bytes_before(a: Seq<u8>, b: Seq<u8>) -> bool {
    exists|n: int| parts_below(a, b, n)
}

/// The bytes by which a name is ordered: its UTF-8 encoding.
pub open spec fn name_bytes(name: Seq<char>) -> Seq<u8> {
    vstd::utf8::encode_utf8(name)
}

/// Whether the names stand in strictly ascending byte order, so that no
/// name occurs twice.
pub open spec fn names_ascending<Q>(entries: Seq<(String, Block<Q>)>) -> bool {
    forall|i: int, j: int|
        0 <= i < j < entries.len() ==> bytes_before(
            name_bytes(#[trigger] entries[i].0@),
            name_bytes(#[trigger] entries[j].0@),
        )
}

/// No name comes before itself, and of two names at most one comes before
/// the other.
pub proof fn lemma_bytes_before_asymmetric(a: Seq<u8>, b: Seq<u8>)
    ensures
        !(bytes_before(a, b) && bytes_before(b, a)),
        !bytes_before(a, a),
{
    if bytes_before(a, b) && bytes_before(b, a) {
        let n = choose|n: int| parts_below(a, b, n);
        let m = choose|m: int| parts_below(b, a, m);
        if n < m {
            assert(b[n] == a[n]);
        } else if m < n {
            assert(a[m] == b[m]);
        }
    }
    if bytes_before(a, a) {
        let n = choose|n: int| parts_below(a, a, n);
    }
}

/// The order is transitive.
pub proof fn lemma_bytes_before_transitive(a: Seq<u8>, b: Seq<u8>, c: Seq<u8>)
    requires
        bytes_before(a, b),
        bytes_before(b, c),
    ensures
        bytes_before(a, c),
{
    let n = choose|n: int| parts_below(a, b, n);
    let m = choose|m: int| parts_below(b, c, m);
    if n <= m {
        assert(parts_below(a, c, n));
    } else {
        assert(parts_below(a, c, m));
    }
}

/// Names with the same bytes are the same name.
pub proof fn lemma_name_bytes_injective(a: Seq<char>, b: Seq<char>)
    requires
        name_bytes(a) == name_bytes(b),
    ensures
        a == b,
{
    vstd::utf8::encode_utf8_decode_utf8(a);
    vstd::utf8::encode_utf8_decode_utf8(b);
}

/// Compares two names by their bytes.
pub fn name_order(a: &str, b: &str) -> (r: NameOrder)
    ensures
        r == NameOrder::Before <==> bytes_before(name_bytes(a@), name_bytes(b@)),
        r == NameOrder::Same <==> a@ == b@,
        r == NameOrder::After <==> bytes_before(name_bytes(b@), name_bytes(a@)),
{
    let x = a.as_bytes();
    let y = b.as_bytes();
    let mut i: usize = 0;
    while i < x.len() && i < y.len()
        invariant
            agree_upto(x@, y@, i as int),
            x@ == name_bytes(a@),
            y@ == name_bytes(b@),
        decreases x.len() - i,
    {
        if x[i] < y[i] {
            proof {
                assert(parts_below(x@, y@, i as int));
                lemma_bytes_before_asymmetric(x@, y@);
            }
            return NameOrder::Before;
        }
        if x[i] > y[i] {
            proof {
                assert(agree_upto(y@, x@, i as int));
                assert(parts_below(y@, x@, i as int));
                lemma_bytes_before_asymmetric(x@, y@);
            }
            return NameOrder::After;
        }
        i += 1;
    }
    proof {
        lemma_bytes_before_asymmetric(x@, y@);
        lemma_bytes_before_asymmetric(x@, x@);
        if a@ == b@ {
            assert(x@ == y@);
        }
    }
    if x.len() < y.len() {
        assert(parts_below(x@, y@, i as int));
        NameOrder::Before
    } else if x.len() > y.len() {
        assert(agree_upto(y@, x@, i as int));
        assert(parts_below(y@, x@, i as int));
        NameOrder::After
    } else {
        proof {
            assert(x@ =~= y@);
            lemma_name_bytes_injective(a@, b@);
        }
        NameOrder::Same
    }
}

/// In a catalogue in ascending order each name stands once: any position
/// that holds a name is the only one.
pub proof fn lemma_position<Q>(entries: Seq<(String, Block<Q>)>, index: int)
    requires
        names_ascending(entries),
        0 <= index < entries.len(),
    ensures
        forall|i: int|
            0 <= i < entries.len() && (#[trigger] entries[i]).0@ == entries[index].0@ ==> i
                == index,
{
    assert forall|i: int|
        0 <= i < entries.len() && (#[trigger] entries[i]).0@ == entries[index].0@ implies i
        == index by {
        let name = name_bytes(entries[index].0@);
        lemma_bytes_before_asymmetric(name, name);
        if i < index {
            assert(bytes_before(name_bytes(entries[i].0@), name_bytes(entries[index].0@)));
        } else if index < i {
            assert(bytes_before(name_bytes(entries[index].0@), name_bytes(entries[i].0@)));
        }
    }
}

/// The catalogue of block definitions, in strictly ascending order of
/// their names. A block's identifier is its position in the catalogue.
#[derive(Debug)]
pub struct Pack<Q> {
    blocks: Vec<(String, Block<Q>)>,
}

impl<Q> Pack<Q> {
    #[verifier::type_invariant]
    spec fn ordered(self) -> bool {
        names_ascending(self.blocks@)
    }

    /// The named definitions, in catalogue order.
    pub closed spec fn entries(&self) -> Seq<(String, Block<Q>)> {
        self.blocks@
    }

    /// Whether `id` identifies a block of the catalogue.
    pub open spec fn defines(&self, id: i16) -> bool {
        0 <= id < self.entries().len()
    }

    /// The definition that `id` identifies.
    pub open spec fn definition(&self, id: i16) -> Block<Q> {
        self.entries()[id as int].1
    }

    /// Whether a block of the catalogue is called `name`.
    pub open spec fn has_name(&self, name: Seq<char>) -> bool {
        exists|i: int| 0 <= i < self.entries().len() && (#[trigger] self.entries()[i]).0@ == name
    }

    /// The position of the block called `name`, if the catalogue has one.
    pub open spec fn position(&self, name: Seq<char>) -> Option<int> {
        if self.has_name(name) {
            Some(
                choose|i: int|
                    0 <= i < self.entries().len() && (#[trigger] self.entries()[i]).0@ == name,
            )
        } else {
            None
        }
    }

    /// Whether no block of the catalogue has more than `MAX_BLOCK_QUADS`
    /// quads.
    pub open spec fn light(&self) -> bool {
        forall|i: int|
            0 <= i < self.entries().len() ==> (#[trigger] self.entries()[i]).1.quad_count()
                <= MAX_BLOCK_QUADS
    }

    /// Tells whether no block of the catalogue has more than
    /// `MAX_BLOCK_QUADS` quads.
    pub fn is_light(&self) -> (r: bool)
        ensures
            r == self.light(),
    {
        let mut i: usize = 0;
        while i < self.blocks.len()
            invariant
                i <= self.blocks.len(),
                forall|k: int|
                    0 <= k < i ==> (#[trigger] self.blocks@[k]).1.quad_count() <= MAX_BLOCK_QUADS,
            decreases self.blocks.len() - i,
        {
            if !self.blocks[i].1.is_light() {
                assert(self.entries()[i as int].1.quad_count() > MAX_BLOCK_QUADS);
                return false;
            }
            i += 1;
        }
        true
    }

    /// Makes a catalogue of `blocks` if their names stand in strictly
    /// ascending byte order, and refuses them otherwise.
    pub fn new(blocks: Vec<(String, Block<Q>)>) -> (r: Option<Pack<Q>>)
        ensures
            r is Some <==> names_ascending(blocks@),
            r matches Some(pack) ==> pack.entries() == blocks@,
    {
        let mut i: usize = 1;
        while i < blocks.len()
            invariant
                1 <= i,
                forall|a: int, b: int|
                    0 <= a < b < i && b < blocks.len() ==> bytes_before(
                        name_bytes(#[trigger] blocks@[a].0@),
                        name_bytes(#[trigger] blocks@[b].0@),
                    ),
            decreases blocks.len() - i,
        {
            let order = name_order(blocks[i - 1].0.as_str(), blocks[i].0.as_str());
            if order != NameOrder::Before {
                return None;
            }
            proof {
                let last = name_bytes(blocks@[i as int].0@);
                let prev = name_bytes(blocks@[i - 1].0@);
                assert forall|a: int| 0 <= a < i implies bytes_before(
                    name_bytes(#[trigger] blocks@[a].0@),
                    last,
                ) by {
                    if a < i - 1 {
                        lemma_bytes_before_transitive(name_bytes(blocks@[a].0@), prev, last);
                    }
                }
            }
            i += 1;
        }
        Some(Pack { blocks })
    }

    /// Number of blocks in the catalogue.
    pub fn len(&self) -> (n: usize)
        ensures
            n == self.entries().len(),
    {
        self.blocks.len()
    }

    /// The name and definition at position `index`.
    pub fn entry(&self, index: usize) -> (r: &(String, Block<Q>))
        requires
            index < self.entries().len(),
        ensures
            *r == self.entries()[index as int],
    {
        &self.blocks[index]
    }

    /// Tells whether `id` identifies a block of the catalogue.
    pub fn is_defined(&self, id: i16) -> (r: bool)
        ensures
            r == self.defines(id),
    {
        id >= 0 && (id as usize) < self.blocks.len()
    }

    /// The definition that `id` identifies.
    pub fn block(&self, id: i16) -> (r: &Block<Q>)
        requires
            self.defines(id),
        ensures
            *r == self.definition(id),
    {
        &self.blocks[id as usize].1
    }

    /// Looks a block up by its name.
    pub fn find(&self, name: &str) -> (r: Option<usize>)
        ensures
            r is Some <==> self.has_name(name@),
            r matches Some(index) ==> index < self.entries().len() && self.entries()[index as int].0@
                == name@ && self.position(name@) == Some(index as int),
    {
        proof {
            use_type_invariant(self);
        }
        let mut low: usize = 0;
        let mut high: usize = self.blocks.len();
        while low < high
            invariant
                low <= high <= self.blocks.len(),
                names_ascending(self.blocks@),
                forall|i: int| 0 <= i < low ==> (#[trigger] self.blocks@[i]).0@ != name@,
                forall|i: int|
                    high <= i < self.blocks.len() ==> (#[trigger] self.blocks@[i]).0@ != name@,
            decreases high - low,
        {
            let mid = low + (high - low) / 2;
            let ghost probe = name_bytes(self.blocks@[mid as int].0@);
            match name_order(self.blocks[mid].0.as_str(), name) {
                NameOrder::Same => {
                    proof {
                        lemma_position(self.blocks@, mid as int);
                    }
                    return Some(mid);
                },
                NameOrder::Before => {
                    proof {
                        assert forall|i: int| 0 <= i < mid + 1 implies (#[trigger] self.blocks@[i]).0@
                            != name@ by {
                            if i < mid {
                                lemma_bytes_before_asymmetric(
                                    name_bytes(self.blocks@[i].0@),
                                    probe,
                                );
                            }
                        }
                    }
                    low = mid + 1;
                },
                NameOrder::After => {
                    proof {
                        assert forall|i: int| mid <= i < self.blocks.len() implies (
                        #[trigger] self.blocks@[i]).0@ != name@ by {
                            if mid < i {
                                lemma_bytes_before_asymmetric(
                                    probe,
                                    name_bytes(self.blocks@[i].0@),
                                );
                            }
                        }
                    }
                    high = mid;
                },
            }
        }
        None
    }
}

} // verus!
