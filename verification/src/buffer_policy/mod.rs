pub mod buffer_age_policy;
pub mod buffer_length_policy;
pub mod buffer_weight_policy;
pub mod composite_buffer_policy;
pub mod policy_trait;

pub use buffer_age_policy::BufferAgePolicy;
pub use buffer_length_policy::BufferLengthPolicy;
pub use buffer_weight_policy::BufferWeightPolicy;
pub use composite_buffer_policy::{BufferPolicyExtension, CompositeBufferPolicy};
pub use policy_trait::{BufferInstruction, BufferPolicy};
