pub mod headline;
pub mod org;
pub mod properties;
pub mod timestamp;

pub use headline::{Headline, TodoState};
pub use org::{OrgError, OrgFile};
pub use properties::{Properties, PropertyMap};
pub use timestamp::{OrgTimestamp, TimestampType};
