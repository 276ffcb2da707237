//! Debian/Ubuntu package metadata: control-file paragraphs, dependency
//! relations, maintainer identities, sources lists and release indices.

pub mod text;
pub mod error;
pub mod rfc822;
pub mod sections;
pub mod arch;
pub mod deps;
pub mod ident;
pub mod sources_list;
pub mod classic_sources_list;
pub mod checksum;
pub mod checksums;
pub mod vcs;
pub mod package;
pub mod dep_graph;
pub mod package_list;
pub mod stanza;
pub mod release;
pub mod lists;
pub mod blocks;
pub mod ninja;
pub mod fetch;
pub mod signing;
