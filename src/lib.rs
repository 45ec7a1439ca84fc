use vstd::prelude::*;

pub mod cli;
pub mod collection;
pub mod freq;
pub mod keyed;
pub mod postings;
pub mod timestamp;

pub use cli::{Commands, SearchineCli};
pub use collection::{Collection, CollectionEntry, InvertedCollection};
pub use freq::{FrequencyPosting, FrequencyPostingsList};
pub use postings::{Posting, PostingsList};
pub use timestamp::Timestamp;
