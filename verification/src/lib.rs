//! Correlates live TCP listening ports and open files with the processes
//! that own them, and walks each owner's parent chain for display.
//!
//! The library works on plain values handed in by its caller: per-process
//! scan results, connection records, and canonical paths. Reading the
//! host's process and network tables is the caller's business.

use vstd::prelude::*;

mod model;
mod snapshot;
mod correlate;
mod ancestry;
mod render;
mod report;

pub use model::ConnState;
pub use model::ConnectionRecord;
pub use model::DescriptorTarget;
pub use model::MatchResult;
pub use model::ProcessRecord;
pub use model::ProcessScan;
pub use model::LineageScan;
pub use model::FdListing;
pub use snapshot::ProcessIndex;
pub use snapshot::InodeIndex;
pub use snapshot::build_snapshot;
pub use correlate::find_by_port;
pub use correlate::find_by_file;
pub use ancestry::resolve_ancestry;
pub use ancestry::resolve_inode_ancestry;
pub use render::render_header;
pub use render::render_record;
pub use render::render_unknown_row;
pub use render::render_report;
pub use report::port_report;
pub use report::file_report;

verus! {

/// Rendered in place of any string field whose value could not be read.
pub const UNKNOWN_INDICATOR: &'static str = "?";

} // verus!
