use vstd::prelude::*;
use crate::attributes::{Attribute, AttributeView, attributes_view, clone_attributes};

verus! {

/// A method of a class.
#[derive(Debug)]
pub struct method_info {
    pub access_flag: u16,
    pub name_index: u16,
    pub descriptor_index: u16,
    pub attributes_count: u16,
    pub attributes: Vec<Attribute>,
}

/// What a method holds, as mathematical values.
pub struct MethodView {
    pub access_flag: u16,
    pub name_index: u16,
    pub descriptor_index: u16,
    pub attributes_count: u16,
    pub attributes: Seq<AttributeView>,
}

impl DeepView for method_info {
    type V = MethodView;

    open spec fn deep_view(&self) -> MethodView {
        MethodView {
            access_flag: self.access_flag,
            name_index: self.name_index,
            descriptor_index: self.descriptor_index,
            attributes_count: self.attributes_count,
            attributes: attributes_view(self.attributes@),
        }
    }
}


impl Clone for method_info {
    /// A copy with the same value, attributes included.
    fn clone(&self) -> (r: Self)
        ensures
            r.deep_view() == self.deep_view(),
    {
        method_info {
            access_flag: self.access_flag,
            name_index: self.name_index,
            descriptor_index: self.descriptor_index,
            attributes_count: self.attributes_count,
            attributes: clone_attributes(&self.attributes),
        }
    }
}

} // verus!
