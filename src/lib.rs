pub mod diagnostics;
pub mod fixes;
pub mod store;
pub mod textlint;
