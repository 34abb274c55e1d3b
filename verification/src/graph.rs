//! The data model of the reference-graph view.
//!
//! The graph itself is assembled by an outside collaborator in the
//! embedding application from the stored resources; these are the
//! plain-value shapes it takes and produces.

use vstd::prelude::*;

verus! {

/// Which resource kinds the graph view should include.
pub struct GraphFilters {
    pub show_packages: bool,
    pub show_bibliographies: bool,
    pub show_images: bool,
    pub show_classes: bool,
    pub show_dtx: bool,
    pub show_ins: bool,
}

/// One directed reference between two resources.
pub struct GraphLinkOutput {
    pub source: String,
    pub target: String,
    pub link_type: String,
}

impl GraphFilters {
    /// The filter set that shows every resource kind.
    pub fn all() -> (r: GraphFilters)
        ensures
            r.show_packages && r.show_bibliographies && r.show_images && r.show_classes
                && r.show_dtx && r.show_ins,
    {
        GraphFilters {
            show_packages: true,
            show_bibliographies: true,
            show_images: true,
            show_classes: true,
            show_dtx: true,
            show_ins: true,
        }
    }
}

} // verus!
