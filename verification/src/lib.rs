//! HTML postprocessing passes for markdown-rendered document fragments:
//! hierarchical heading numbering with table-of-contents assembly, image and
//! anchor link resolution, wiki-reference resolution, and footnote
//! cross-linking.

pub mod chars;
pub mod counter;
pub mod footnotes;
pub mod headings;
pub mod links;
pub mod metadata;
pub mod pathnorm;
pub mod text;

pub use footnotes::fix_footnotes;
pub use headings::fix_header;
pub use links::fix_link;
pub use links::LinkError;
pub use metadata::add_github_info;
pub use metadata::GithubInfo;
