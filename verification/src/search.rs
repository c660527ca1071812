use vstd::prelude::*;

use crate::note::{Note, NoteView};
use crate::strutil::{has_sub, match_at, find_sub_str, lemma_find_sub_first};

verus! {

/// Name for what `str::to_lowercase` returns: the Unicode lowercase
/// equivalent of a character sequence.
pub uninterp spec fn lower_of(s: Seq<char>) -> Seq<char>;

/// Relies on str::to_lowercase: its result depends on the characters alone,
/// and an empty string stays empty.
#[verifier::external_body]
fn lowercase(s: &str) -> (r: String)
    ensures
        r@ == lower_of(s@),
        s@.len() == 0 ==> r@.len() == 0,
{
    s.to_lowercase()
}

/// A note matches a lowercased query when the query occurs in the lowercase
/// rendering of its title or of its content.
pub open spec fn note_matches(nv: NoteView, ql: Seq<char>) -> bool {
    has_sub(lower_of(nv.title), ql) || has_sub(lower_of(nv.content), ql)
}

/// Case-insensitive substring filter over the note set: keeps, in order,
/// exactly the notes whose title or content contains the query once both
/// sides are lowercased; an empty query keeps every note.
pub fn search_notes(query: &str, notes: Vec<Note>) -> (r: Vec<Note>)
    ensures
        r@.map_values(|n: Note| n@) == notes@.map_values(|n: Note| n@).filter(
            |nv: NoteView| note_matches(nv, lower_of(query@)),
        ),
        query@.len() == 0 ==> r@.map_values(|n: Note| n@) == notes@.map_values(|n: Note| n@),
{
    let ql_string = lowercase(query);
    let ql = ql_string.as_str();
    let ghost qlv = lower_of(query@);
    let ghost nvs = notes@.map_values(|n: Note| n@);
    let ghost pred = |nv: NoteView| note_matches(nv, qlv);
    let mut out: Vec<Note> = Vec::new();
    let mut i: usize = 0;
    proof {
        reveal_with_fuel(Seq::<NoteView>::filter, 2);
        assert(nvs.take(0) =~= Seq::<NoteView>::empty());
    }
    while i < notes.len()
        invariant
            i <= notes.len(),
            nvs == notes@.map_values(|n: Note| n@),
            qlv == lower_of(query@),
            ql_string@ == qlv,
            ql@ == qlv,
            pred == (|nv: NoteView| note_matches(nv, qlv)),
            out@.map_values(|n: Note| n@) == nvs.take(i as int).filter(pred),
        decreases notes.len() - i,
    {
        let note = &notes[i];
        let tl = lowercase(note.title.as_str());
        let cl = lowercase(note.content.as_str());
        let title_hit = match find_sub_str(tl.as_str(), ql) {
            Some(_) => true,
            None => false,
        };
        let content_hit = match find_sub_str(cl.as_str(), ql) {
            Some(_) => true,
            None => false,
        };
        proof {
            lemma_find_sub_first(tl@, ql@);
            lemma_find_sub_first(cl@, ql@);
            assert(title_hit == has_sub(lower_of(note@.title), qlv));
            assert(content_hit == has_sub(lower_of(note@.content), qlv));
        }
        let ghost prev = out@.map_values(|n: Note| n@);
        if title_hit || content_hit {
            out.push(note.clone());
        }
        proof {
            reveal_with_fuel(Seq::<NoteView>::filter, 2);
            assert(nvs.take(i + 1).drop_last() =~= nvs.take(i as int));
            assert(nvs.take(i + 1).last() == nvs[i as int]);
            assert(nvs[i as int] == note@);
            if pred(note@) {
                assert(out@.map_values(|n: Note| n@) =~= prev.push(note@));
            }
        }
        i += 1;
    }
    proof {
        assert(nvs.take(notes@.len() as int) =~= nvs);
        if query@.len() == 0 {
            assert forall|j: int| 0 <= j < nvs.len() implies #[trigger] pred(nvs[j]) by {
                assert(lower_of(nvs[j].title).subrange(0, 0) =~= qlv);
                assert(match_at(lower_of(nvs[j].title), qlv, 0));
            }
            lemma_filter_all(nvs, pred);
        }
    }
    out
}

/// A filter whose predicate holds everywhere keeps the sequence unchanged.
proof fn lemma_filter_all(s: Seq<NoteView>, pred: spec_fn(NoteView) -> bool)
    requires
        forall|j: int| 0 <= j < s.len() ==> #[trigger] pred(s[j]),
    ensures
        s.filter(pred) == s,
    decreases s.len(),
{
    reveal_with_fuel(Seq::<NoteView>::filter, 2);
    if s.len() == 0 {
        assert(s.filter(pred) =~= s);
    } else {
        assert(forall|j: int| 0 <= j < s.drop_last().len() ==> #[trigger] pred(s.drop_last()[j]));
        lemma_filter_all(s.drop_last(), pred);
        assert(pred(s.last()));
        assert(s.drop_last().push(s.last()) =~= s);
    }
}

} // verus!
