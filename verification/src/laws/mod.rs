//! What holds of the server as a whole, stated of what goes in and what comes out.

pub mod access;
pub mod certificates;
pub mod credentials;
pub mod directives;
pub mod documents;
pub mod expressions;
pub mod frameworks;
pub mod hierarchy;
pub mod housekeeping;
pub mod measures;
pub mod names;
pub mod negotiation;
pub mod outputs;
pub mod protocols;
pub mod ranges;
pub mod relaying;
pub mod requests;
pub mod rewrites;
pub mod running;
pub mod serving;
pub mod settings;
pub mod surroundings;
pub mod templates;
pub mod wording;
