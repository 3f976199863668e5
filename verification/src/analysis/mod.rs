//! Analyses over the syntax tree: constant folding and reactivity planning.

pub mod types;
pub mod optimizer;
pub mod semantics;
pub mod reactivity;
pub mod pipeline;

pub use optimizer::AstOptimizer;
pub use reactivity::{
    ComponentPlan, ComputedInfo, DynamicTextSlot, NameMap, PlannedElement, PlannedNodeKind, ReactivityAnalyzer,
    SignalInfo,
};
