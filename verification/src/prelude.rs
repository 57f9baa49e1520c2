//! Everything needed to check paths and push them.

pub use crate::push::PushPathComponent;

pub use crate::single::SingleComponentPath;
pub use crate::single::SingleComponentPathBuf;

pub use crate::multi::MultiComponentPath;
pub use crate::multi::MultiComponentPathBuf;
