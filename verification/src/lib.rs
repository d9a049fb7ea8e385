//! Structural lookup of classes in a bytecode archive: type descriptors,
//! class patterns and the engine that matches one against the other.

pub mod class;
pub mod descriptor;
pub mod engine;
pub mod exact;
pub mod java;
pub mod method;
pub mod pat;
pub mod result;
pub mod search;
pub mod signature;
pub mod text;

pub use class::{Candidate, ClassRecord, JarEntry, MemberRecord};
pub use descriptor::{Descriptor, DescriptorError};
pub use engine::{check_class, check_type};
pub use method::MethodDescriptor;
pub use pat::{Any, ClassPat, HasDescriptor, HasTypePat, MemberPat, TypePat};
pub use result::{Error, Result};
pub use search::{find_pattern, search_exact, search_many, select_exact, Match};
pub use signature::Signature;
