//! Decision logic of a pipeline resource for a remote binary-package
//! repository: glob filtering, version resolution, remote path templating,
//! reconciliation of local files against remote content, the publish and
//! visibility protocol, and retention pruning.

pub mod check;
pub mod coordinator;
pub mod error;
pub mod fetch;
pub mod matcher;
pub mod options;
pub mod order;
pub mod path;
pub mod reconcile;
pub mod record;
pub mod regexp;
pub mod report;
pub mod resolver;
pub mod retention;
pub mod template;
pub mod text;
