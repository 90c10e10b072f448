use vstd::prelude::*;
use std::sync::Arc;

verus! {

/// The attribute streams a vertex set can hold.
#[derive(Clone, Copy, Debug, PartialEq, Eq, Structural)]
pub enum VertexAttributes {
    Position,
    Normal,
    Colour,
    TextureUV,
    MaxAttributes,
}

/// Number of attribute slots.
pub const ATTRIBUTE_SLOTS: usize = 4;

impl VertexAttributes {
    /// The slot of an attribute stream (`MaxAttributes` counts the slots).
    pub open spec fn spec_slot(self) -> int {
        match self {
            VertexAttributes::Position => 0,
            VertexAttributes::Normal => 1,
            VertexAttributes::Colour => 2,
            VertexAttributes::TextureUV => 3,
            VertexAttributes::MaxAttributes => 4,
        }
    }

    pub fn slot(self) -> (r: usize)
        ensures
            r == self.spec_slot(),
    {
        match self {
            VertexAttributes::Position => 0,
            VertexAttributes::Normal => 1,
            VertexAttributes::Colour => 2,
            VertexAttributes::TextureUV => 3,
            VertexAttributes::MaxAttributes => 4,
        }
    }
}

/// Shared vertex data of a draw: an optional index buffer and one optional
/// stream of fixed-point components per attribute.
#[derive(Clone)]
pub struct VertexSet {
    indices: Option<Arc<Vec<u32>>>,
    attributes: Vec<Option<Arc<Vec<i32>>>>,
}

impl VertexSet {
    /// The index buffer, if any.
    pub closed spec fn spec_indices(&self) -> Option<Seq<u32>> {
        match self.indices {
            Some(v) => Some(v@),
            None => None,
        }
    }

    /// The stream in slot `slot`, if any.
    pub closed spec fn spec_attribute(&self, slot: int) -> Option<Seq<i32>> {
        match self.attributes@[slot] {
            Some(v) => Some(v@),
            None => None,
        }
    }

    pub closed spec fn wf(&self) -> bool {
        self.attributes@.len() == ATTRIBUTE_SLOTS
    }

    /// An empty vertex set.
    pub fn new() -> (r: VertexSet)
        ensures
            r.wf(),
            r.spec_indices() is None,
            forall|slot: int| 0 <= slot < ATTRIBUTE_SLOTS ==> #[trigger] r.spec_attribute(slot) is None,
    {
        let mut attributes: Vec<Option<Arc<Vec<i32>>>> = Vec::new();
        let mut i: usize = 0;
        while i < ATTRIBUTE_SLOTS
            invariant
                i <= ATTRIBUTE_SLOTS,
                attributes@.len() == i,
                forall|k: int| 0 <= k < i ==> #[trigger] attributes@[k] is None,
            decreases ATTRIBUTE_SLOTS - i,
        {
            attributes.push(None);
            i += 1;
        }
        VertexSet { indices: None, attributes }
    }

    pub fn set_indices(&mut self, data: Arc<Vec<u32>>)
        requires
            old(self).wf(),
        ensures
            final(self).wf(),
            final(self).spec_indices() == Some(data@),
            forall|slot: int| #[trigger] final(self).spec_attribute(slot) == old(self).spec_attribute(slot),
    {
        self.indices = Some(data);
    }

    pub fn get_indices(&self) -> (r: Option<&[u32]>)
        ensures
            match r {
                Some(s) => self.spec_indices() == Some(s@),
                None => self.spec_indices() is None,
            },
    {
        match &self.indices {
            Some(v) => Some(v.as_slice()),
            None => None,
        }
    }

    pub fn set_attribute(&mut self, attribute: VertexAttributes, data: Arc<Vec<i32>>)
        requires
            old(self).wf(),
            attribute != VertexAttributes::MaxAttributes,
        ensures
            final(self).wf(),
            final(self).spec_indices() == old(self).spec_indices(),
            forall|slot: int|
                0 <= slot < ATTRIBUTE_SLOTS ==> #[trigger] final(self).spec_attribute(slot) == if slot == attribute.spec_slot() {
                    Some(data@)
                } else {
                    old(self).spec_attribute(slot)
                },
    {
        let slot = attribute.slot();
        self.attributes.set(slot, Some(data));
    }

    pub fn get_attribute(&self, attribute: VertexAttributes) -> (r: Option<&[i32]>)
        requires
            self.wf(),
            attribute != VertexAttributes::MaxAttributes,
        ensures
            match r {
                Some(s) => self.spec_attribute(attribute.spec_slot()) == Some(s@),
                None => self.spec_attribute(attribute.spec_slot()) is None,
            },
    {
        let slot = attribute.slot();
        match &self.attributes[slot] {
            Some(v) => Some(v.as_slice()),
            None => None,
        }
    }
}

} // verus!
