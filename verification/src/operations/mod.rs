//! Operations of the merge workflow, independent of how they are driven.

pub mod bitmap_index;
pub mod cherry_pick;
pub mod data_loading;
pub mod dependency_analysis;
pub mod hooks;
pub mod post_merge;
pub mod pr_selection;
pub mod work_item_grouping;
