//! Lazy concatenation of domain names.
//!
//! A [`Chain`] joins two name fragments into one logical domain name without
//! copying either. The joined name is only laid out octet by octet when it is
//! written into a buffer or handed to a [`Compressor`].

pub mod buf;
pub mod chain;
pub mod compose;
pub mod dname;
pub mod label;
pub mod relative;
pub mod traits;
pub mod uncertain;

pub use crate::chain::{chain_text, Chain, ChainIter, LongChainError};
pub use crate::compose::{Compose, Compress, Compressor, CompressorView, ShortBuf};
pub use crate::dname::{Dname, DnameIter};
pub use crate::label::{Label, LongLabelError};
pub use crate::relative::{RelativeDname, RelativeDnameError};
pub use crate::traits::{
    collect_labels, collect_labels_rev, LabelIterator, ToDname, ToLabelIter, ToRelativeDname,
};
pub use crate::uncertain::UncertainDname;
