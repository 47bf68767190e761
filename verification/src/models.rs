//! The data model: a block with its modifiers and elements, together with the
//! mathematical views and validity predicates that the contracts of the
//! parser and the JSON codec are stated over.

use vstd::prelude::*;

verus! {

/// A top-level named component: a name, an ordered list of modifiers, and an
/// ordered list of elements.
#[derive(Debug, PartialEq, Eq)]
pub struct BEMBlock {
    pub name: String,
    pub modifiers: Vec<String>,
    pub elements: Vec<BEMElement>,
}

/// One named sub-part of a block, with its own ordered list of modifiers.
#[derive(Debug, PartialEq, Eq)]
pub struct BEMElement {
    pub name: String,
    pub modifiers: Vec<String>,
}

/// The mathematical value of a `BEMElement`.
#[verifier::ext_equal]
pub struct ElementView {
    pub name: Seq<char>,
    pub modifiers: Seq<Seq<char>>,
}

/// The mathematical value of a `BEMBlock`.
#[verifier::ext_equal]
pub struct BlockView {
    pub name: Seq<char>,
    pub modifiers: Seq<Seq<char>>,
    pub elements: Seq<ElementView>,
}

impl View for BEMElement {
    type V = ElementView;

    open spec fn view(&self) -> ElementView {
        ElementView { name: self.name@, modifiers: self.modifiers.deep_view() }
    }
}

impl DeepView for BEMElement {
    type V = ElementView;

    open spec fn deep_view(&self) -> ElementView {
        self.view()
    }
}

impl View for BEMBlock {
    type V = BlockView;

    open spec fn view(&self) -> BlockView {
        BlockView {
            name: self.name@,
            modifiers: self.modifiers.deep_view(),
            elements: self.elements.deep_view(),
        }
    }
}

impl DeepView for BEMBlock {
    type V = BlockView;

    open spec fn deep_view(&self) -> BlockView {
        self.view()
    }
}

/// The characters an identifier may consist of: ASCII letters, ASCII digits,
/// and the hyphen.
pub open spec fn is_ident_char(c: char) -> bool {
    let u = c as u32;
    (48 <= u && u <= 57)  // '0' ..= '9'
    || (65 <= u && u <= 90)  // 'A' ..= 'Z'
    || (97 <= u && u <= 122)  // 'a' ..= 'z'
    || u == 45  // '-'
}

/// A valid name: at least one character, all of them identifier characters.
pub open spec fn wf_name(s: Seq<char>) -> bool {
    s.len() > 0 && forall|i: int| 0 <= i < s.len() ==> is_ident_char(#[trigger] s[i])
}

/// A valid modifier list: every entry is itself a valid name, so in
/// particular no entry is empty.
pub open spec fn wf_modifiers(ms: Seq<Seq<char>>) -> bool {
    forall|i: int| 0 <= i < ms.len() ==> wf_name(#[trigger] ms[i])
}

/// A valid element: its name and all of its modifiers match the identifier
/// grammar.
pub open spec fn wf_element(e: ElementView) -> bool {
    wf_name(e.name) && wf_modifiers(e.modifiers)
}

/// A valid block: its name, its modifiers, and all of its elements are valid.
pub open spec fn wf_block(b: BlockView) -> bool {
    &&& wf_name(b.name)
    &&& wf_modifiers(b.modifiers)
    &&& forall|i: int| 0 <= i < b.elements.len() ==> wf_element(#[trigger] b.elements[i])
}

} // verus!
