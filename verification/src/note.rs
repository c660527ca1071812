use vstd::prelude::*;

verus! {

/// A single user-authored note. The identifier doubles as the filename stem
/// on disk (`<id>.md`); persistence is a full overwrite keyed by `id`.
pub struct Note {
    pub id: String,
    pub title: String,
    pub content: String,
    pub folder: String,
    pub parent_id: Option<String>,
    pub created_at: i64,
    pub updated_at: i64,
}

/// Mathematical image of a `Note`: every text field as a sequence of
/// characters, timestamps as unbounded integers.
#[verifier::ext_equal]
pub ghost struct NoteView {
    pub id: Seq<char>,
    pub title: Seq<char>,
    pub content: Seq<char>,
    pub folder: Seq<char>,
    pub parent_id: Option<Seq<char>>,
    pub created_at: int,
    pub updated_at: int,
}

impl View for Note {
    type V = NoteView;

    open spec fn view(&self) -> NoteView {
        NoteView {
            id: self.id@,
            title: self.title@,
            content: self.content@,
            folder: self.folder@,
            parent_id: match self.parent_id {
                Some(p) => Some(p@),
                None => None,
            },
            created_at: self.created_at as int,
            updated_at: self.updated_at as int,
        }
    }
}

impl Clone for Note {
    fn clone(&self) -> (r: Note)
        ensures
            r@ == self@,
    {
        Note {
            id: self.id.clone(),
            title: self.title.clone(),
            content: self.content.clone(),
            folder: self.folder.clone(),
            parent_id: match &self.parent_id {
                Some(p) => Some(p.clone()),
                None => None,
            },
            created_at: self.created_at,
            updated_at: self.updated_at,
        }
    }
}

} // verus!
