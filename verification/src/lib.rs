//! Generates a secret-free ".sample" counterpart of an environment-variable
//! definition file: every variable's value is replaced by a placeholder or by
//! an explicitly supplied example value, while comments, blank lines and the
//! order of variables are preserved.

/// The override map of user-supplied example values.
pub mod overrides;
/// Default destination paths for sample files.
pub mod paths;
/// The sample generator: the pure transformation itself.
pub mod sample;
/// Character classification, line splitting and searching within lines.
pub mod text;
