//! What differs from one installation to the next.
use vstd::prelude::*;

verus! {

/// A display manager, for those who bring their own.
pub trait DisplayManagerBackend {
    /// The user that the display manager runs as.
    fn dm_user(&self) -> &str;

    /// Whether this display manager is in use.
    fn detect(&self) -> bool;
}

/// A place for the models, for those who bring their own.
pub trait ModelStoreBackend {
    /// The directory of the models.
    fn model_dir(&self) -> String;
}

} // verus!
