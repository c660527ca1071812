// A flat-file note store: notes serialize to markdown files with a
// key-value frontmatter header, folders to a single ordered collection,
// and search is a case-insensitive linear filter over the loaded notes.
//
// codec holds the on-disk format and its tolerant decoder, roundtrip the
// proof that encoding then decoding a well-formed note is the identity.

pub mod codec;
pub mod folders;
pub mod note;
pub mod num;
pub mod roundtrip;
pub mod search;
pub mod store;
pub mod strutil;

pub use note::Note;
pub use note::NoteView;
