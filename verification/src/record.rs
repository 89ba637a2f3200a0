//! The presentation record.

use vstd::prelude::*;

verus! {

/// One presentation: the text of its link and the link's target.
///
/// Neither field is validated or escaped anywhere in the library.
#[derive(Debug, Clone, PartialEq, Eq)]
pub struct PresentationInfo {
    pub name: String,
    pub path: String,
}

/// The mathematical content of a [`PresentationInfo`].
pub ghost struct PresentationView {
    pub name: Seq<char>,
    pub path: Seq<char>,
}

impl View for PresentationInfo {
    type V = PresentationView;

    open spec fn view(&self) -> PresentationView {
        PresentationView { name: self.name@, path: self.path@ }
    }
}

/// The contents of a list of records, in order.
pub open spec fn records_view(records: Seq<PresentationInfo>) -> Seq<PresentationView> {
    records.map_values(|r: PresentationInfo| r@)
}

impl PresentationInfo {
    /// Makes a record from its two fields.
    pub fn new(name: String, path: String) -> (record: PresentationInfo)
        ensures
            record@ == (PresentationView { name: name@, path: path@ }),
    {
        PresentationInfo { name, path }
    }
}

} // verus!
