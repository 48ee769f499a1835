//! Handles for shader units, their allocator, and the two registries the
//! preprocessor consults: unit lookup by handle and handle lookup by import
//! reference. Both registries are association lists with unique keys, read
//! through their `Map` views.

use vstd::prelude::*;

use crate::import::{ImportRefView, ShaderImport};
use crate::shader::{Shader, ShaderView};

verus! {

/// An opaque identifier for a registered shader unit. Handles are small
/// integers, totally ordered, never dereferenced by the preprocessor itself,
/// and never reused once issued.
#[derive(Hash, Debug, Copy, Clone, PartialEq, PartialOrd, Eq, Structural)]
pub struct ShaderHandle(pub u32);

impl ShaderHandle {
    /// Wraps a raw counter value as a handle. Fresh values come from
    /// `HandleAllocator::allocate`, which hands out each integer once.
    pub fn new(id: u32) -> (r: Self)
        ensures
            r.0 == id,
    {
        ShaderHandle(id)
    }
}

/// The monotonically increasing counter behind handle allocation. Each call
/// returns the counter's value and moves it up by one, so no two calls on the
/// same allocator ever return the same handle and no value is skipped.
pub struct HandleAllocator {
    pub next_id: u32,
}

impl HandleAllocator {
    /// A fresh allocator; the first handle it issues is 0.
    pub fn new() -> (r: Self)
        ensures
            r.next_id == 0,
    {
        HandleAllocator { next_id: 0 }
    }

    /// Issues the next handle.
    pub fn allocate(&mut self) -> (r: ShaderHandle)
        requires
            old(self).next_id < u32::MAX,
        ensures
            r.0 == old(self).next_id,
            final(self).next_id == old(self).next_id + 1,
    {
        let id = self.next_id;
        self.next_id = self.next_id + 1;
        ShaderHandle(id)
    }
}

/// Whether some handle in the list carries the value `v`.
pub open spec fn holds_value(handles: Seq<ShaderHandle>, v: int) -> bool {
    exists|i: int| 0 <= i < handles.len() && (#[trigger] handles[i]).0 == v
}

/// Handles issued one after another from a counter are pairwise distinct and
/// leave no gap: they are exactly the integers of one contiguous range.
pub proof fn lemma_handle_allocation(handles: Seq<ShaderHandle>, start: int)
    requires
        forall|i: int| 0 <= i < handles.len() ==> (#[trigger] handles[i]).0 == start + i,
    ensures
        forall|i: int, j: int|
            0 <= i < handles.len() && 0 <= j < handles.len() && i != j ==> handles[i]
                != handles[j],
        forall|v: int| start <= v < start + handles.len() ==> #[trigger] holds_value(handles, v),
{
    assert forall|v: int| start <= v < start + handles.len() implies #[trigger] holds_value(
        handles,
        v,
    ) by {
        assert(handles[v - start].0 == v);
    }
}

// ---------------------------------------------------------------------------
// Unit registry: handle -> shader unit.
// ---------------------------------------------------------------------------

/// The mapping an association list denotes; a later entry for the same key
/// would win, but registries keep their keys unique.
pub open spec fn shader_map_of(keys: Seq<ShaderHandle>, vals: Seq<Shader>) -> Map<u32, ShaderView>
    decreases keys.len(),
{
    if keys.len() == 0 || vals.len() == 0 {
        Map::empty()
    } else {
        shader_map_of(keys.drop_last(), vals.drop_last()).insert(keys.last().0, vals.last()@)
    }
}

proof fn lemma_shader_map_entry(keys: Seq<ShaderHandle>, vals: Seq<Shader>, i: int)
    requires
        keys.len() == vals.len(),
        0 <= i < keys.len(),
        forall|p: int, q: int|
            0 <= p < q < keys.len() ==> (#[trigger] keys[p]).0 != (#[trigger] keys[q]).0,
    ensures
        shader_map_of(keys, vals).dom().contains(keys[i].0),
        shader_map_of(keys, vals)[keys[i].0] == vals[i]@,
    decreases keys.len(),
{
    if i < keys.len() - 1 {
        lemma_shader_map_entry(keys.drop_last(), vals.drop_last(), i);
    }
}

proof fn lemma_shader_map_absent(keys: Seq<ShaderHandle>, vals: Seq<Shader>, k: u32)
    requires
        keys.len() == vals.len(),
        forall|i: int| 0 <= i < keys.len() ==> (#[trigger] keys[i]).0 != k,
    ensures
        !shader_map_of(keys, vals).dom().contains(k),
    decreases keys.len(),
{
    if keys.len() > 0 {
        lemma_shader_map_absent(keys.drop_last(), vals.drop_last(), k);
    }
}

/// Replacing the value at index `i` is, on the map, an insert at that entry's key.
proof fn lemma_shader_map_update(keys: Seq<ShaderHandle>, vals: Seq<Shader>, i: int, x: Shader)
    requires
        keys.len() == vals.len(),
        0 <= i < keys.len(),
        forall|p: int, q: int|
            0 <= p < q < keys.len() ==> (#[trigger] keys[p]).0 != (#[trigger] keys[q]).0,
    ensures
        shader_map_of(keys, vals.update(i, x)) == shader_map_of(keys, vals).insert(
            keys[i].0,
            x@,
        ),
    decreases keys.len(),
{
    let vu = vals.update(i, x);
    if i == keys.len() - 1 {
        assert(vu.drop_last() =~= vals.drop_last());
        assert(shader_map_of(keys, vu) =~= shader_map_of(keys, vals).insert(keys[i].0, x@));
    } else {
        lemma_shader_map_update(keys.drop_last(), vals.drop_last(), i, x);
        assert(vu.drop_last() =~= vals.drop_last().update(i, x));
        assert(keys[i].0 != keys.last().0);
        assert(shader_map_of(keys, vu) =~= shader_map_of(keys, vals).insert(keys[i].0, x@));
    }
}

/// The caller-owned registry of shader units, read during processing and never
/// written by it.
pub struct ShaderRegistry {
    keys: Vec<ShaderHandle>,
    vals: Vec<Shader>,
}

impl View for ShaderRegistry {
    type V = Map<u32, ShaderView>;

    closed spec fn view(&self) -> Map<u32, ShaderView> {
        shader_map_of(self.keys@, self.vals@)
    }
}

impl ShaderRegistry {
    /// Keys are unique and each key has its unit.
    pub closed spec fn wf(&self) -> bool {
        &&& self.keys@.len() == self.vals@.len()
        &&& forall|p: int, q: int|
            0 <= p < q < self.keys@.len() ==> (#[trigger] self.keys@[p]).0 != (
            #[trigger] self.keys@[q]).0
    }

    /// An empty registry.
    pub fn new() -> (r: Self)
        ensures
            r.wf(),
            r@ == Map::<u32, ShaderView>::empty(),
    {
        ShaderRegistry { keys: Vec::new(), vals: Vec::new() }
    }

    /// Registers `shader` under `handle`, replacing a previous unit under the
    /// same handle if there was one.
    pub fn insert(&mut self, handle: ShaderHandle, shader: Shader)
        requires
            old(self).wf(),
        ensures
            final(self).wf(),
            final(self)@ == old(self)@.insert(handle.0, shader@),
    {
        let ghost k0 = self.keys@;
        let ghost v0 = self.vals@;
        let mut i: usize = 0;
        while i < self.keys.len()
            invariant
                self.keys@ == k0,
                self.vals@ == v0,
                k0 == old(self).keys@,
                v0 == old(self).vals@,
                old(self).wf(),
                k0.len() == v0.len(),
                i <= k0.len(),
                forall|j: int| 0 <= j < i ==> (#[trigger] k0[j]).0 != handle.0,
            decreases k0.len() - i,
        {
            if self.keys[i].0 == handle.0 {
                self.vals.remove(i);
                self.vals.insert(i, shader);
                proof {
                    assert(self.vals@ =~= v0.update(i as int, shader));
                    lemma_shader_map_update(k0, v0, i as int, shader);
                }
                return ;
            }
            i = i + 1;
        }
        self.keys.push(handle);
        self.vals.push(shader);
        proof {
            assert(self.keys@.drop_last() =~= k0);
            assert(self.vals@.drop_last() =~= v0);
        }
    }

    /// Looks a handle up.
    pub fn get(&self, handle: &ShaderHandle) -> (r: Option<&Shader>)
        requires
            self.wf(),
        ensures
            match r {
                Some(s) => self@.dom().contains(handle.0) && s@ == self@[handle.0],
                None => !self@.dom().contains(handle.0),
            },
    {
        let mut i: usize = 0;
        while i < self.keys.len()
            invariant
                self.wf(),
                i <= self.keys@.len(),
                forall|j: int| 0 <= j < i ==> (#[trigger] self.keys@[j]).0 != handle.0,
            decreases self.keys@.len() - i,
        {
            if self.keys[i].0 == handle.0 {
                proof {
                    lemma_shader_map_entry(self.keys@, self.vals@, i as int);
                }
                return Some(&self.vals[i]);
            }
            i = i + 1;
        }
        proof {
            lemma_shader_map_absent(self.keys@, self.vals@, handle.0);
        }
        None
    }

    /// How many units are registered.
    pub fn len(&self) -> (r: usize)
        requires
            self.wf(),
        ensures
            r == self@.dom().len(),
    {
        proof {
            lemma_shader_map_len(self.keys@, self.vals@);
        }
        self.keys.len()
    }
}

proof fn lemma_shader_map_len(keys: Seq<ShaderHandle>, vals: Seq<Shader>)
    requires
        keys.len() == vals.len(),
        forall|p: int, q: int|
            0 <= p < q < keys.len() ==> (#[trigger] keys[p]).0 != (#[trigger] keys[q]).0,
    ensures
        shader_map_of(keys, vals).dom().finite(),
        shader_map_of(keys, vals).dom().len() == keys.len(),
    decreases keys.len(),
{
    if keys.len() > 0 {
        lemma_shader_map_len(keys.drop_last(), vals.drop_last());
        lemma_shader_map_absent(keys.drop_last(), vals.drop_last(), keys.last().0);
    }
}

// ---------------------------------------------------------------------------
// Import registry: import reference -> handle.
// ---------------------------------------------------------------------------

/// The mapping an association list of references denotes.
pub open spec fn import_map_of(keys: Seq<ShaderImport>, vals: Seq<ShaderHandle>) -> Map<
    ImportRefView,
    u32,
>
    decreases keys.len(),
{
    if keys.len() == 0 || vals.len() == 0 {
        Map::empty()
    } else {
        import_map_of(keys.drop_last(), vals.drop_last()).insert(keys.last()@, vals.last().0)
    }
}

proof fn lemma_import_map_entry(keys: Seq<ShaderImport>, vals: Seq<ShaderHandle>, i: int)
    requires
        keys.len() == vals.len(),
        0 <= i < keys.len(),
        forall|p: int, q: int|
            0 <= p < q < keys.len() ==> (#[trigger] keys[p])@ != (#[trigger] keys[q])@,
    ensures
        import_map_of(keys, vals).dom().contains(keys[i]@),
        import_map_of(keys, vals)[keys[i]@] == vals[i].0,
    decreases keys.len(),
{
    if i < keys.len() - 1 {
        lemma_import_map_entry(keys.drop_last(), vals.drop_last(), i);
    }
}

proof fn lemma_import_map_absent(keys: Seq<ShaderImport>, vals: Seq<ShaderHandle>, k: ImportRefView)
    requires
        keys.len() == vals.len(),
        forall|i: int| 0 <= i < keys.len() ==> (#[trigger] keys[i])@ != k,
    ensures
        !import_map_of(keys, vals).dom().contains(k),
    decreases keys.len(),
{
    if keys.len() > 0 {
        lemma_import_map_absent(keys.drop_last(), vals.drop_last(), k);
    }
}

/// Replacing the value at index `i` is, on the map, an insert at that entry's key.
proof fn lemma_import_map_update(
    keys: Seq<ShaderImport>,
    vals: Seq<ShaderHandle>,
    i: int,
    x: ShaderHandle,
)
    requires
        keys.len() == vals.len(),
        0 <= i < keys.len(),
        forall|p: int, q: int|
            0 <= p < q < keys.len() ==> (#[trigger] keys[p])@ != (#[trigger] keys[q])@,
    ensures
        import_map_of(keys, vals.update(i, x)) == import_map_of(keys, vals).insert(keys[i]@, x.0),
    decreases keys.len(),
{
    let vu = vals.update(i, x);
    if i == keys.len() - 1 {
        assert(vu.drop_last() =~= vals.drop_last());
        assert(import_map_of(keys, vu) =~= import_map_of(keys, vals).insert(keys[i]@, x.0));
    } else {
        lemma_import_map_update(keys.drop_last(), vals.drop_last(), i, x);
        assert(vu.drop_last() =~= vals.drop_last().update(i, x));
        assert(keys[i]@ != keys.last()@);
        assert(import_map_of(keys, vu) =~= import_map_of(keys, vals).insert(keys[i]@, x.0));
    }
}

/// The caller-owned registry resolving import references to handles. The
/// absence of a reference is an ordinary condition, reported by `get` as
/// `None`.
pub struct ImportRegistry {
    keys: Vec<ShaderImport>,
    vals: Vec<ShaderHandle>,
}

impl View for ImportRegistry {
    type V = Map<ImportRefView, u32>;

    closed spec fn view(&self) -> Map<ImportRefView, u32> {
        import_map_of(self.keys@, self.vals@)
    }
}

impl ImportRegistry {
    /// Keys are unique and each key has its handle.
    pub closed spec fn wf(&self) -> bool {
        &&& self.keys@.len() == self.vals@.len()
        &&& forall|p: int, q: int|
            0 <= p < q < self.keys@.len() ==> (#[trigger] self.keys@[p])@ != (
            #[trigger] self.keys@[q])@
    }

    /// An empty registry.
    pub fn new() -> (r: Self)
        ensures
            r.wf(),
            r@ == Map::<ImportRefView, u32>::empty(),
    {
        ImportRegistry { keys: Vec::new(), vals: Vec::new() }
    }

    /// Registers `handle` under `import`, replacing a previous handle under
    /// the same reference if there was one.
    pub fn insert(&mut self, import: ShaderImport, handle: ShaderHandle)
        requires
            old(self).wf(),
        ensures
            final(self).wf(),
            final(self)@ == old(self)@.insert(import@, handle.0),
    {
        let ghost k0 = self.keys@;
        let ghost v0 = self.vals@;
        let mut i: usize = 0;
        while i < self.keys.len()
            invariant
                self.keys@ == k0,
                self.vals@ == v0,
                k0 == old(self).keys@,
                v0 == old(self).vals@,
                old(self).wf(),
                k0.len() == v0.len(),
                i <= k0.len(),
                forall|j: int| 0 <= j < i ==> (#[trigger] k0[j])@ != import@,
            decreases k0.len() - i,
        {
            if self.keys[i] == import {
                self.vals.remove(i);
                self.vals.insert(i, handle);
                proof {
                    assert(self.vals@ =~= v0.update(i as int, handle));
                    lemma_import_map_update(k0, v0, i as int, handle);
                }
                return ;
            }
            i = i + 1;
        }
        self.keys.push(import);
        self.vals.push(handle);
        proof {
            assert(self.keys@.drop_last() =~= k0);
            assert(self.vals@.drop_last() =~= v0);
        }
    }

    /// Looks a reference up; handles are copied out.
    pub fn get(&self, import: &ShaderImport) -> (r: Option<ShaderHandle>)
        requires
            self.wf(),
        ensures
            match r {
                Some(h) => self@.dom().contains(import@) && h.0 == self@[import@],
                None => !self@.dom().contains(import@),
            },
    {
        let mut i: usize = 0;
        while i < self.keys.len()
            invariant
                self.wf(),
                i <= self.keys@.len(),
                forall|j: int| 0 <= j < i ==> (#[trigger] self.keys@[j])@ != import@,
            decreases self.keys@.len() - i,
        {
            if self.keys[i] == *import {
                proof {
                    lemma_import_map_entry(self.keys@, self.vals@, i as int);
                }
                return Some(self.vals[i]);
            }
            i = i + 1;
        }
        proof {
            lemma_import_map_absent(self.keys@, self.vals@, import@);
        }
        None
    }

    /// How many references are registered.
    pub fn len(&self) -> (r: usize)
        requires
            self.wf(),
        ensures
            r == self@.dom().len(),
    {
        proof {
            lemma_import_map_len(self.keys@, self.vals@);
        }
        self.keys.len()
    }
}

proof fn lemma_import_map_len(keys: Seq<ShaderImport>, vals: Seq<ShaderHandle>)
    requires
        keys.len() == vals.len(),
        forall|p: int, q: int|
            0 <= p < q < keys.len() ==> (#[trigger] keys[p])@ != (#[trigger] keys[q])@,
    ensures
        import_map_of(keys, vals).dom().finite(),
        import_map_of(keys, vals).dom().len() == keys.len(),
    decreases keys.len(),
{
    if keys.len() > 0 {
        lemma_import_map_len(keys.drop_last(), vals.drop_last());
        lemma_import_map_absent(keys.drop_last(), vals.drop_last(), keys.last()@);
    }
}

} // verus!
