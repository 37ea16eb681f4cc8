//! Interactive selection of a named credential from an in-memory credential
//! set: a prefix-searchable index over credential titles, a line editor that
//! consumes one raw input byte at a time, and a typeahead resolver that
//! extends the input to the longest common prefix of the matching titles or
//! reports that the candidates must be listed.

pub mod editor;
pub mod index;
pub mod prefix;
pub mod store;

