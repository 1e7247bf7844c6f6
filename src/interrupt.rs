use vstd::prelude::*;
use crate::utils::{copy_text, Duplicate};

verus! {

/// An interrupt line of a peripheral.
#[derive(Clone, Debug)]
pub struct Interrupt {
    pub name: String,
    pub description: Option<String>,
    pub value: i64,
}

/// Mathematical model of an [`Interrupt`].
pub ghost struct InterruptModel {
    pub name: Seq<char>,
    pub description: Option<Seq<char>>,
    pub value: i64,
}

impl DeepView for Interrupt {
    type V = InterruptModel;

    open spec fn deep_view(&self) -> InterruptModel {
        InterruptModel { name: self.name@, description: self.description.deep_view(), value: self.value }
    }
}

impl Duplicate for Interrupt {
    fn duplicate(&self) -> (r: Self) {
        Interrupt { name: self.name.clone(), description: copy_text(&self.description), value: self.value }
    }
}

} // verus!
