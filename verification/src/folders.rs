use vstd::prelude::*;

verus! {

/// One folder of the hierarchy: a display name under a unique identifier,
/// with an optional parent folder forming a tree.
pub struct Folder {
    pub id: String,
    pub name: String,
    pub parent_id: Option<String>,
}

/// Mathematical image of a `Folder`.
pub ghost struct FolderView {
    pub id: Seq<char>,
    pub name: Seq<char>,
    pub parent_id: Option<Seq<char>>,
}

impl View for Folder {
    type V = FolderView;

    open spec fn view(&self) -> FolderView {
        FolderView {
            id: self.id@,
            name: self.name@,
            parent_id: match self.parent_id {
                Some(p) => Some(p@),
                None => None,
            },
        }
    }
}

impl Clone for Folder {
    fn clone(&self) -> (r: Folder)
        ensures
            r@ == self@,
    {
        Folder {
            id: self.id.clone(),
            name: self.name.clone(),
            parent_id: match &self.parent_id {
                Some(p) => Some(p.clone()),
                None => None,
            },
        }
    }
}

/// The collection a fresh folder store is seeded with: exactly one folder,
/// the `default` one named `Notes`, without a parent.
pub open spec fn default_folders_view() -> Seq<FolderView> {
    seq![FolderView { id: "default"@, name: "Notes"@, parent_id: None }]
}

/// Builds the seed collection of `default_folders_view`.
pub fn default_folders() -> (r: Vec<Folder>)
    ensures
        r@.map_values(|f: Folder| f@) == default_folders_view(),
{
    let mut v: Vec<Folder> = Vec::new();
    v.push(
        Folder {
            id: String::from_str("default"),
            name: String::from_str("Notes"),
            parent_id: None,
        },
    );
    proof {
        assert(v@.map_values(|f: Folder| f@) =~= default_folders_view());
    }
    v
}

/// The decision inside loading the folder store: a missing store yields the
/// default collection and asks for it to be persisted, so a second load
/// finds it and seeds nothing; an existing collection is returned exactly
/// as it was read, with nothing written.
pub fn load_folders_step(stored: Option<Vec<Folder>>) -> (r: (Vec<Folder>, bool))
    ensures
        stored is None ==> r.0@.map_values(|f: Folder| f@) == default_folders_view() && r.1,
        stored matches Some(fs) ==> r.0 == fs && !r.1,
{
    match stored {
        None => (default_folders(), true),
        Some(fs) => (fs, false),
    }
}

} // verus!
