//! The generic tree of a parsed description document.
use vstd::prelude::*;
use vstd::string::StringExecFns;

verus! {

/// A node of a parsed description document: a name, attributes, child
/// nodes in order, and optional text.
#[derive(Debug)]
pub struct Element {
    pub name: String,
    pub attributes: Vec<(String, String)>,
    pub children: Vec<Element>,
    pub text: Option<String>,
}

/// Index of the first child of `e`, from `k` on, named `name`; -1 where none is.
pub open spec fn child_index(e: Element, name: Seq<char>, k: int) -> int
    decreases e.children@.len() - k,
{
    if k < 0 || k >= e.children@.len() {
        -1
    } else if e.children@[k].name@ == name {
        k
    } else {
        child_index(e, name, k + 1)
    }
}

/// The text of the first child of `e` named `name` (empty where that child
/// has none), where there is such a child.
pub open spec fn child_text(e: Element, name: Seq<char>) -> Option<Seq<char>> {
    let i = child_index(e, name, 0);
    if i < 0 {
        None
    } else {
        match e.children@[i].text {
            Some(t) => Some(t@),
            None => Some(Seq::empty()),
        }
    }
}

/// Index of the first attribute of `e`, from `k` on, named `name`; -1 where none is.
pub open spec fn attribute_index(e: Element, name: Seq<char>, k: int) -> int
    decreases e.attributes@.len() - k,
{
    if k < 0 || k >= e.attributes@.len() {
        -1
    } else if e.attributes@[k].0@ == name {
        k
    } else {
        attribute_index(e, name, k + 1)
    }
}

/// The value of the first attribute of `e` named `name`.
pub open spec fn attribute_value(e: Element, name: Seq<char>) -> Option<Seq<char>> {
    let i = attribute_index(e, name, 0);
    if i < 0 {
        None
    } else {
        Some(e.attributes@[i].1@)
    }
}

impl Element {
    /// The first child named `name`.
    pub fn get_child(&self, name: &str) -> (r: Option<&Element>)
        ensures
            match r {
                Some(c) => {
                    let i = child_index(*self, name@, 0);
                    0 <= i < self.children@.len() && *c == self.children@[i]
                },
                None => child_index(*self, name@, 0) == -1,
            },
    {
        let target = String::from_str(name);
        let mut i: usize = 0;
        while i < self.children.len()
            invariant
                i <= self.children.len(),
                target@ == name@,
                child_index(*self, name@, 0) == child_index(*self, name@, i as int),
            decreases self.children.len() - i,
        {
            if self.children[i].name == target {
                return Some(&self.children[i]);
            }
            i = i + 1;
        }
        None
    }

    /// The value of the first attribute named `name`.
    pub fn attribute(&self, name: &str) -> (r: Option<String>)
        ensures
            r.deep_view() == attribute_value(*self, name@),
    {
        let target = String::from_str(name);
        let mut i: usize = 0;
        while i < self.attributes.len()
            invariant
                i <= self.attributes.len(),
                target@ == name@,
                attribute_index(*self, name@, 0) == attribute_index(*self, name@, i as int),
            decreases self.attributes.len() - i,
        {
            if self.attributes[i].0 == target {
                return Some(self.attributes[i].1.clone());
            }
            i = i + 1;
        }
        None
    }
}

/// The text of the first child of `element` named `name`, where there is one.
pub fn get_child_text(element: &Element, name: &str) -> (r: Option<String>)
    ensures
        r.deep_view() == child_text(*element, name@),
{
    match element.get_child(name) {
        Some(c) => match &c.text {
            Some(t) => Some(t.clone()),
            None => Some(String::new()),
        },
        None => None,
    }
}

} // verus!
