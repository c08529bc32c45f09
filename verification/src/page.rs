//! The element tree of a rendered page: views hold sections and charts.

use vstd::prelude::*;

use crate::id::Id;

verus! {

/// An element of a page that carries an identifier.
pub trait Element {
    /// The identifier of this element.
    fn id(&self) -> &Id;
}

/// A chart placed on a page.
#[derive(Debug)]
pub struct Chart {
    /// The identifier of the chart.
    pub id: Id,
    /// The display name of the chart.
    pub name: String,
    /// The plot description of the chart.
    pub spec: ChartSpec,
}

/// The plot description of a page chart; it has no adjustable parts.
#[derive(Debug)]
pub struct ChartSpec {}

impl ChartSpec {
    /// An empty plot description.
    pub fn new() -> (r: ChartSpec) {
        ChartSpec {  }
    }
}

impl Chart {
    /// A chart under the given identifier, with an empty name and plot
    /// description.
    pub fn new(id: Id) -> (r: Chart)
        ensures
            r.id == id,
            r.name@ == Seq::<char>::empty(),
    {
        Chart { id, name: String::new(), spec: ChartSpec::new() }
    }
}

impl Element for Chart {
    fn id(&self) -> &Id {
        &self.id
    }
}

/// A collapsible group of elements on a page.
#[derive(Debug)]
pub struct Section {
    /// The identifier of the section.
    pub id: Id,
    /// The elements inside the section.
    pub elements: Vec<ElementKind>,
}

impl Section {
    /// An empty section under the given identifier.
    pub fn new(id: Id) -> (r: Section)
        ensures
            r.id == id,
            r.elements@ == Seq::<ElementKind>::empty(),
    {
        Section { id, elements: Vec::new() }
    }
}

impl Element for Section {
    fn id(&self) -> &Id {
        &self.id
    }
}

/// Any element a page can hold.
#[derive(Debug)]
pub enum ElementKind {
    /// A section of further elements.
    Section(Section),
    /// A chart.
    Chart(Chart),
}

impl Element for ElementKind {
    fn id(&self) -> &Id {
        match self {
            ElementKind::Section(s) => s.id(),
            ElementKind::Chart(c) => c.id(),
        }
    }
}

/// A whole page of elements.
#[derive(Debug)]
pub struct Page {
    /// The elements of the page, in display order.
    pub elements: Vec<ElementKind>,
}

impl Page {
    /// An empty page.
    pub fn new() -> (r: Page)
        ensures
            r.elements@ == Seq::<ElementKind>::empty(),
    {
        Page { elements: Vec::new() }
    }

    /// The page with one more element at the end.
    pub fn add(self, element: ElementKind) -> (r: Page)
        ensures
            r.elements@ == self.elements@.push(element),
    {
        let mut elements = self.elements;
        elements.push(element);
        Page { elements }
    }
}

} // verus!
