//! A section of a document: a piece of documentation and the code that it
//! describes, both as HTML.

use vstd::prelude::*;

verus! {

/// One section of a document.
#[derive(Debug)]
pub struct Section {
    num: usize,
    docs_html: String,
    code_html: String,
}

/// A [`Section`] as a number and two sequences of characters.
pub struct SectionView {
    pub num: nat,
    pub docs_html: Seq<char>,
    pub code_html: Seq<char>,
}

impl View for Section {
    type V = SectionView;

    closed spec fn view(&self) -> SectionView {
        SectionView {
            num: self.num as nat,
            docs_html: self.docs_html@,
            code_html: self.code_html@,
        }
    }
}

/// The views of `sections`, in order.
pub open spec fn section_views(sections: Seq<Section>) -> Seq<SectionView> {
    Seq::new(sections.len(), |i: int| sections[i]@)
}

impl Section {
    /// The section that stands at place `num` of its document, with its
    /// documentation and its code as HTML.
    pub fn new(num: usize, docs_html: String, code_html: String) -> (section: Section)
        ensures
            section@ == (SectionView {
                num: num as nat,
                docs_html: docs_html@,
                code_html: code_html@,
            }),
    {
        Section { num, docs_html, code_html }
    }

    /// The place of the section in its document, counted from 0.
    pub fn num(&self) -> (num: usize)
        ensures
            num == self@.num,
    {
        self.num
    }

    /// The documentation of the section, as HTML.
    pub fn docs_html(&self) -> (html: &String)
        ensures
            html@ == self@.docs_html,
    {
        &self.docs_html
    }

    /// The code of the section, as HTML.
    pub fn code_html(&self) -> (html: &String)
        ensures
            html@ == self@.code_html,
    {
        &self.code_html
    }
}

} // verus!
