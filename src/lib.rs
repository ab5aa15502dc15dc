//! Reconciliation core of a virtual tree: a tree of virtual nodes is diffed
//! against its previous version and the differences are applied to a live
//! render target, modelled as an arena of nodes addressed by stable handles.
pub mod document;
pub mod vnode;
pub mod laws;
