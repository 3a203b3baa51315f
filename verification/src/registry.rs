//! Catalog mapping block type names to identifiers and per-identifier
//! texture-atlas metadata. Populated once at world construction.

use vstd::prelude::*;
use crate::geometry::UvCoord;
use crate::block::{BlockID, Face};

verus! {

broadcast use vstd::seq::group_seq_axioms;

/// Texture-atlas cells for a block, one per face in `Face::spec_index` order.
#[derive(Clone, Copy, PartialEq, Eq, Debug)]
pub struct BlockUV {
    pub uvs: [UvCoord; 6],
}

impl BlockUV {
    /// Metadata that uses the same atlas cell on every face.
    pub fn one_face(uv_origin: UvCoord) -> (r: BlockUV)
        ensures
            forall|i: int| 0 <= i < 6 ==> r.uvs[i] == uv_origin,
    {
        BlockUV { uvs: [uv_origin, uv_origin, uv_origin, uv_origin, uv_origin, uv_origin] }
    }

    /// The atlas cell for one face.
    pub fn get_face(&self, face: Face) -> (r: UvCoord)
        ensures
            r == self.uvs[face.spec_index()],
    {
        self.uvs[face.to_index()]
    }
}

/// First identifier registered under the name `n`, or `None`.
pub open spec fn spec_lookup_name(s: Seq<(String, BlockID)>, n: Seq<char>) -> Option<BlockID>
    decreases s.len(),
{
    if s.len() == 0 {
        None
    } else if s[0].0@ == n {
        Some(s[0].1)
    } else {
        spec_lookup_name(s.drop_first(), n)
    }
}

/// First metadata registered under the identifier `id`, or `None`.
pub open spec fn spec_lookup_uv(s: Seq<(BlockID, BlockUV)>, id: BlockID) -> Option<BlockUV>
    decreases s.len(),
{
    if s.len() == 0 {
        None
    } else if s[0].0 == id {
        Some(s[0].1)
    } else {
        spec_lookup_uv(s.drop_first(), id)
    }
}

/// The fixed catalog a fresh registry holds: stone, dirt and grass, with
/// their identifiers and atlas cells.
pub open spec fn spec_default_catalog(r: Registry) -> bool {
    &&& r.spec_id_of("stone"@) == Some(BlockID(1))
    &&& r.spec_id_of("dirt"@) == Some(BlockID(2))
    &&& r.spec_id_of("grass"@) == Some(BlockID(3))
    &&& r.spec_uv_of(BlockID(1)) matches Some(uv) && (forall|i: int|
        0 <= i < 6 ==> uv.uvs[i] == (UvCoord { x: 2, y: 0 }))
    &&& r.spec_uv_of(BlockID(2)) matches Some(uv) && (forall|i: int|
        0 <= i < 6 ==> uv.uvs[i] == (UvCoord { x: 0, y: 0 }))
    &&& r.spec_uv_of(BlockID(3)) matches Some(uv) && {
        &&& uv.uvs[0] == (UvCoord { x: 1, y: 0 })
        &&& uv.uvs[1] == (UvCoord { x: 0, y: 0 })
        &&& uv.uvs[2] == (UvCoord { x: 3, y: 0 })
        &&& uv.uvs[3] == (UvCoord { x: 3, y: 0 })
        &&& uv.uvs[4] == (UvCoord { x: 3, y: 0 })
        &&& uv.uvs[5] == (UvCoord { x: 3, y: 0 })
    }
    &&& forall|n: Seq<char>|
        n != "stone"@ && n != "dirt"@ && n != "grass"@ ==> #[trigger] r.spec_id_of(n) is None
    &&& forall|id: BlockID|
        id != BlockID(1) && id != BlockID(2) && id != BlockID(3) ==> #[trigger] r.spec_uv_of(id)
            is None
}

/// The block catalog: name to identifier, and identifier to render metadata.
pub struct Registry {
    pub ids_by_name: Vec<(String, BlockID)>,
    pub uvs_by_id: Vec<(BlockID, BlockUV)>,
}

impl Registry {
    /// The empty identifier `BlockID(0)` is never given a name or metadata.
    pub open spec fn wf(self) -> bool {
        &&& forall|i: int| 0 <= i < self.ids_by_name@.len() ==> (#[trigger] self.ids_by_name@[i].1).0
            != 0
        &&& forall|i: int| 0 <= i < self.uvs_by_id@.len() ==> (#[trigger] self.uvs_by_id@[i].0).0
            != 0
    }

    pub open spec fn spec_id_of(self, n: Seq<char>) -> Option<BlockID> {
        spec_lookup_name(self.ids_by_name@, n)
    }

    pub open spec fn spec_uv_of(self, id: BlockID) -> Option<BlockUV> {
        spec_lookup_uv(self.uvs_by_id@, id)
    }

    /// Looks up the identifier registered under `name`. `None` means the
    /// name was never registered, a configuration error for the caller.
    pub fn lookup_id(&self, name: &String) -> (r: Option<BlockID>)
        ensures
            r == self.spec_id_of(name@),
    {
        let mut i: usize = 0;
        let n = self.ids_by_name.len();
        proof {
            assert(self.ids_by_name@.skip(0) =~= self.ids_by_name@);
        }
        while i < n
            invariant
                i <= n,
                n == self.ids_by_name@.len(),
                spec_lookup_name(self.ids_by_name@, name@) == spec_lookup_name(
                    self.ids_by_name@.skip(i as int),
                    name@,
                ),
            decreases n - i,
        {
            let entry = &self.ids_by_name[i];
            proof {
                assert(self.ids_by_name@.skip(i as int)[0] == self.ids_by_name@[i as int]);
            }
            if entry.0 == *name {
                return Some(entry.1);
            }
            proof {
                assert(self.ids_by_name@.skip(i as int).drop_first() =~= self.ids_by_name@.skip(
                    i + 1,
                ));
            }
            i = i + 1;
        }
        proof {
            assert(self.ids_by_name@.skip(n as int) =~= Seq::<(String, BlockID)>::empty());
        }
        None
    }

    /// Looks up the render metadata registered under `id`.
    pub fn lookup_texture(&self, id: BlockID) -> (r: Option<BlockUV>)
        ensures
            r == self.spec_uv_of(id),
    {
        let mut i: usize = 0;
        let n = self.uvs_by_id.len();
        proof {
            assert(self.uvs_by_id@.skip(0) =~= self.uvs_by_id@);
        }
        while i < n
            invariant
                i <= n,
                n == self.uvs_by_id@.len(),
                spec_lookup_uv(self.uvs_by_id@, id) == spec_lookup_uv(
                    self.uvs_by_id@.skip(i as int),
                    id,
                ),
            decreases n - i,
        {
            let entry = &self.uvs_by_id[i];
            proof {
                assert(self.uvs_by_id@.skip(i as int)[0] == self.uvs_by_id@[i as int]);
            }
            if entry.0.0 == id.0 {
                return Some(entry.1);
            }
            proof {
                assert(self.uvs_by_id@.skip(i as int).drop_first() =~= self.uvs_by_id@.skip(i + 1));
            }
            i = i + 1;
        }
        proof {
            assert(self.uvs_by_id@.skip(n as int) =~= Seq::<(BlockID, BlockUV)>::empty());
        }
        None
    }

    /// Registers (or re-registers) `name` as `id` and assigns `id` its
    /// render metadata. `BlockID(0)` denotes emptiness and may not be
    /// registered.
    pub fn register_block(&mut self, name: String, id: BlockID, uv: BlockUV)
        requires
            old(self).wf(),
            id.0 != 0,
        ensures
            final(self).wf(),
            final(self).spec_id_of(name@) == Some(id),
            forall|n: Seq<char>| n != name@ ==> #[trigger] final(self).spec_id_of(n) == old(
                self,
            ).spec_id_of(n),
            final(self).spec_uv_of(id) == Some(uv),
            forall|other: BlockID| other != id ==> #[trigger] final(self).spec_uv_of(other) == old(
                self,
            ).spec_uv_of(other),
    {
        let ghost names0 = self.ids_by_name@;
        match self.find_name(&name) {
            Some(i) => {
                self.ids_by_name[i] = (name, id);
                proof {
                    lemma_lookup_name_update_first(names0, i as int, self.ids_by_name@[i as int]);
                }
            }
            None => {
                let ghost entry = (name, id);
                self.ids_by_name.push((name, id));
                proof {
                    lemma_lookup_name_none(names0, entry.0@);
                    lemma_lookup_name_push(names0, entry);
                }
            }
        }
        let ghost uvs0 = self.uvs_by_id@;
        match self.find_uv(id) {
            Some(i) => {
                self.uvs_by_id[i] = (id, uv);
                proof {
                    lemma_lookup_uv_update_first(uvs0, i as int, (id, uv));
                }
            }
            None => {
                self.uvs_by_id.push((id, uv));
                proof {
                    lemma_lookup_uv_none(uvs0, id);
                    lemma_lookup_uv_push(uvs0, (id, uv));
                }
            }
        }
    }

    /// Index of the first entry named `name`.
    fn find_name(&self, name: &String) -> (r: Option<usize>)
        ensures
            match r {
                Some(i) => {
                    &&& i < self.ids_by_name@.len()
                    &&& self.ids_by_name@[i as int].0@ == name@
                    &&& forall|j: int| 0 <= j < i ==> (#[trigger] self.ids_by_name@[j]).0@ != name@
                },
                None => forall|j: int|
                    0 <= j < self.ids_by_name@.len() ==> (#[trigger] self.ids_by_name@[j]).0@
                        != name@,
            },
    {
        let mut i: usize = 0;
        let n = self.ids_by_name.len();
        while i < n
            invariant
                i <= n,
                n == self.ids_by_name@.len(),
                forall|j: int| 0 <= j < i ==> (#[trigger] self.ids_by_name@[j]).0@ != name@,
            decreases n - i,
        {
            let entry = &self.ids_by_name[i];
            if entry.0 == *name {
                return Some(i);
            }
            i = i + 1;
        }
        None
    }

    /// Index of the first entry keyed `id`.
    fn find_uv(&self, id: BlockID) -> (r: Option<usize>)
        ensures
            match r {
                Some(i) => {
                    &&& i < self.uvs_by_id@.len()
                    &&& self.uvs_by_id@[i as int].0 == id
                    &&& forall|j: int| 0 <= j < i ==> (#[trigger] self.uvs_by_id@[j]).0 != id
                },
                None => forall|j: int|
                    0 <= j < self.uvs_by_id@.len() ==> (#[trigger] self.uvs_by_id@[j]).0 != id,
            },
    {
        let mut i: usize = 0;
        let n = self.uvs_by_id.len();
        while i < n
            invariant
                i <= n,
                n == self.uvs_by_id@.len(),
                forall|j: int| 0 <= j < i ==> (#[trigger] self.uvs_by_id@[j]).0 != id,
            decreases n - i,
        {
            let entry = &self.uvs_by_id[i];
            if entry.0.0 == id.0 {
                return Some(i);
            }
            i = i + 1;
        }
        None
    }

    /// Builds the fixed catalog: stone, dirt and grass, and nothing else.
    pub fn new() -> (r: Registry)
        ensures
            r.wf(),
            spec_default_catalog(r),
    {
        let mut ret = Registry { ids_by_name: Vec::new(), uvs_by_id: Vec::new() };
        let ghost st0 = ret;
        proof {
            reveal_strlit("stone");
            reveal_strlit("dirt");
            reveal_strlit("grass");
            assert("stone"@.len() == 5 && "dirt"@.len() == 4 && "grass"@.len() == 5);
            assert("stone"@ != "dirt"@ && "grass"@ != "dirt"@);
            assert("stone"@ != "grass"@) by {
                assert("stone"@[0] == 's' && "grass"@[0] == 'g');
            }
            assert forall|n: Seq<char>| true implies #[trigger] st0.spec_id_of(n) is None by {
                assert(st0.ids_by_name@.len() == 0);
            }
            assert forall|id: BlockID| true implies #[trigger] st0.spec_uv_of(id) is None by {
                assert(st0.uvs_by_id@.len() == 0);
            }
        }
        ret.register_block("stone".to_owned(), BlockID(1), BlockUV::one_face(UvCoord { x: 2, y: 0 }));
        let ghost st1 = ret;
        ret.register_block("dirt".to_owned(), BlockID(2), BlockUV::one_face(UvCoord { x: 0, y: 0 }));
        let ghost st2 = ret;
        ret.register_block(
            "grass".to_owned(),
            BlockID(3),
            BlockUV {
                uvs: [
                    UvCoord { x: 1, y: 0 },
                    UvCoord { x: 0, y: 0 },
                    UvCoord { x: 3, y: 0 },
                    UvCoord { x: 3, y: 0 },
                    UvCoord { x: 3, y: 0 },
                    UvCoord { x: 3, y: 0 },
                ],
            },
        );
        proof {
            assert forall|n: Seq<char>|
                n != "stone"@ && n != "dirt"@ && n != "grass"@ implies #[trigger] ret.spec_id_of(
                n,
            ) is None by {
                assert(ret.spec_id_of(n) == st2.spec_id_of(n));
                assert(st2.spec_id_of(n) == st1.spec_id_of(n));
                assert(st1.spec_id_of(n) == st0.spec_id_of(n));
            }
            assert forall|id: BlockID|
                id != BlockID(1) && id != BlockID(2) && id != BlockID(3) implies #[trigger] ret
                .spec_uv_of(id) is None by {
                assert(ret.spec_uv_of(id) == st2.spec_uv_of(id));
                assert(st2.spec_uv_of(id) == st1.spec_uv_of(id));
                assert(st1.spec_uv_of(id) == st0.spec_uv_of(id));
            }
        }
        ret
    }
}

/// Appending an entry leaves every other name's lookup unchanged and makes
/// the new name resolve, provided it resolved to nothing before.
proof fn lemma_lookup_name_push(s: Seq<(String, BlockID)>, e: (String, BlockID))
    ensures
        forall|n: Seq<char>|
            #[trigger] spec_lookup_name(s.push(e), n) == (if spec_lookup_name(s, n) is Some {
                spec_lookup_name(s, n)
            } else if e.0@ == n {
                Some(e.1)
            } else {
                None
            }),
    decreases s.len(),
{
    if s.len() == 0 {
        assert forall|n: Seq<char>| true implies #[trigger] spec_lookup_name(s.push(e), n) == (
        if spec_lookup_name(s, n) is Some {
            spec_lookup_name(s, n)
        } else if e.0@ == n {
            Some(e.1)
        } else {
            None
        }) by {
            assert(s.push(e)[0] == e);
            assert(s.push(e).drop_first() =~= s);
        }
    } else {
        lemma_lookup_name_push(s.drop_first(), e);
        assert forall|n: Seq<char>| true implies #[trigger] spec_lookup_name(s.push(e), n) == (
        if spec_lookup_name(s, n) is Some {
            spec_lookup_name(s, n)
        } else if e.0@ == n {
            Some(e.1)
        } else {
            None
        }) by {
            assert(s.push(e)[0] == s[0]);
            assert(s.push(e).drop_first() =~= s.drop_first().push(e));
            assert(spec_lookup_name(s.push(e).drop_first(), n) == spec_lookup_name(
                s.drop_first().push(e),
                n,
            ));
        }
    }
}

/// No lookup succeeds in a table none of whose entries carries the name.
proof fn lemma_lookup_name_none(s: Seq<(String, BlockID)>, n: Seq<char>)
    requires
        forall|j: int| 0 <= j < s.len() ==> (#[trigger] s[j]).0@ != n,
    ensures
        spec_lookup_name(s, n) == None::<BlockID>,
    decreases s.len(),
{
    if s.len() > 0 {
        assert(s[0].0@ != n);
        lemma_lookup_name_none(s.drop_first(), n);
    }
}

/// Replacing the first entry that carries a name with a new binding of the
/// same name rebinds that name and leaves every other name's lookup alone.
proof fn lemma_lookup_name_update_first(s: Seq<(String, BlockID)>, i: int, e: (String, BlockID))
    requires
        0 <= i < s.len(),
        forall|j: int| 0 <= j < i ==> (#[trigger] s[j]).0@ != e.0@,
        s[i].0@ == e.0@,
    ensures
        spec_lookup_name(s.update(i, e), e.0@) == Some(e.1),
        forall|n: Seq<char>| n != e.0@ ==> #[trigger] spec_lookup_name(s.update(i, e), n)
            == spec_lookup_name(s, n),
    decreases s.len(),
{
    if i == 0 {
        assert(s.update(0, e)[0] == e);
        assert forall|n: Seq<char>| n != e.0@ implies #[trigger] spec_lookup_name(s.update(0, e), n)
            == spec_lookup_name(s, n) by {
            assert(s.update(0, e).drop_first() =~= s.drop_first());
        }
    } else {
        lemma_lookup_name_update_first(s.drop_first(), i - 1, e);
        assert(s.update(i, e)[0] == s[0]);
        assert(s.update(i, e).drop_first() =~= s.drop_first().update(i - 1, e));
        assert(s[0].0@ != e.0@);
        assert forall|n: Seq<char>| n != e.0@ implies #[trigger] spec_lookup_name(s.update(i, e), n)
            == spec_lookup_name(s, n) by {
            assert(spec_lookup_name(s.update(i, e).drop_first(), n) == spec_lookup_name(
                s.drop_first().update(i - 1, e),
                n,
            ));
        }
    }
}

/// As `lemma_lookup_name_push`, for the metadata table.
proof fn lemma_lookup_uv_push(s: Seq<(BlockID, BlockUV)>, e: (BlockID, BlockUV))
    ensures
        forall|id: BlockID|
            #[trigger] spec_lookup_uv(s.push(e), id) == (if spec_lookup_uv(s, id) is Some {
                spec_lookup_uv(s, id)
            } else if e.0 == id {
                Some(e.1)
            } else {
                None
            }),
    decreases s.len(),
{
    if s.len() == 0 {
        assert forall|id: BlockID| true implies #[trigger] spec_lookup_uv(s.push(e), id) == (
        if spec_lookup_uv(s, id) is Some {
            spec_lookup_uv(s, id)
        } else if e.0 == id {
            Some(e.1)
        } else {
            None
        }) by {
            assert(s.push(e)[0] == e);
            assert(s.push(e).drop_first() =~= s);
        }
    } else {
        lemma_lookup_uv_push(s.drop_first(), e);
        assert forall|id: BlockID| true implies #[trigger] spec_lookup_uv(s.push(e), id) == (
        if spec_lookup_uv(s, id) is Some {
            spec_lookup_uv(s, id)
        } else if e.0 == id {
            Some(e.1)
        } else {
            None
        }) by {
            assert(s.push(e)[0] == s[0]);
            assert(s.push(e).drop_first() =~= s.drop_first().push(e));
            assert(spec_lookup_uv(s.push(e).drop_first(), id) == spec_lookup_uv(
                s.drop_first().push(e),
                id,
            ));
        }
    }
}

/// No lookup succeeds in a table none of whose entries carries the key.
proof fn lemma_lookup_uv_none(s: Seq<(BlockID, BlockUV)>, id: BlockID)
    requires
        forall|j: int| 0 <= j < s.len() ==> (#[trigger] s[j]).0 != id,
    ensures
        spec_lookup_uv(s, id) == None::<BlockUV>,
    decreases s.len(),
{
    if s.len() > 0 {
        assert(s[0].0 != id);
        lemma_lookup_uv_none(s.drop_first(), id);
    }
}

/// As `lemma_lookup_name_update_first`, for the metadata table.
proof fn lemma_lookup_uv_update_first(s: Seq<(BlockID, BlockUV)>, i: int, e: (BlockID, BlockUV))
    requires
        0 <= i < s.len(),
        forall|j: int| 0 <= j < i ==> (#[trigger] s[j]).0 != e.0,
        s[i].0 == e.0,
    ensures
        spec_lookup_uv(s.update(i, e), e.0) == Some(e.1),
        forall|id: BlockID| id != e.0 ==> #[trigger] spec_lookup_uv(s.update(i, e), id)
            == spec_lookup_uv(s, id),
    decreases s.len(),
{
    if i == 0 {
        assert(s.update(0, e)[0] == e);
        assert forall|id: BlockID| id != e.0 implies #[trigger] spec_lookup_uv(s.update(0, e), id)
            == spec_lookup_uv(s, id) by {
            assert(s.update(0, e).drop_first() =~= s.drop_first());
        }
    } else {
        lemma_lookup_uv_update_first(s.drop_first(), i - 1, e);
        assert(s.update(i, e)[0] == s[0]);
        assert(s.update(i, e).drop_first() =~= s.drop_first().update(i - 1, e));
        assert(s[0].0 != e.0);
        assert forall|id: BlockID| id != e.0 implies #[trigger] spec_lookup_uv(s.update(i, e), id)
            == spec_lookup_uv(s, id) by {
            assert(spec_lookup_uv(s.update(i, e).drop_first(), id) == spec_lookup_uv(
                s.drop_first().update(i - 1, e),
                id,
            ));
        }
    }
}

} // verus!
