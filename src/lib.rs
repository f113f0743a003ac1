//! Planning of deployments described by bill-of-materials manifests: the walk
//! over included manifests, the reduction to the last occurrence of each, and
//! the operations that each manifest asks for under a root directory.
pub mod bom;
pub mod management;
pub mod paths;
pub mod seqs;
pub mod walk;
