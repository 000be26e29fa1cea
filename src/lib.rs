//! Recently opened editor workspaces as results of a desktop shell's search:
//! a relevance score of URIs against search terms, a stable ranking by that
//! score, and the search session that narrows results step by step.

pub mod text;
pub mod matcher;
pub mod ranking;
pub mod session;
pub mod describe;
pub mod paths;
pub mod providers;
pub mod storage;
pub mod systemd;
pub mod xdg;
