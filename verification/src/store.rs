use vstd::prelude::*;

use crate::note::{Note, NoteView};
use crate::codec::decode_spec;
use crate::codec::parse_markdown_note;

verus! {

/// Filename a note is stored under: its identifier with the `.md` extension.
pub fn note_filename(id: &str) -> (r: String)
    ensures
        r@ == id@ + ".md"@,
{
    let mut s = String::from_str(id);
    s.append(".md");
    s
}

/// The notes that decode from a batch of file texts, in order, with every
/// text that is no note skipped.
pub open spec fn decode_all(texts: Seq<Seq<char>>) -> Seq<NoteView>
    decreases texts.len(),
{
    if texts.len() == 0 {
        Seq::empty()
    } else {
        match decode_spec(texts[0]) {
            Some(nv) => seq![nv] + decode_all(texts.skip(1)),
            None => decode_all(texts.skip(1)),
        }
    }
}

/// Bulk decode, as loading every note file of the directory performs it:
/// each text decodes independently, a malformed one is skipped and fails
/// nothing, and the input order is kept.
pub fn decode_notes(texts: &Vec<String>) -> (r: Vec<Note>)
    ensures
        r@.map_values(|n: Note| n@) == decode_all(texts@.map_values(|t: String| t@)),
{
    let ghost tv = texts@.map_values(|t: String| t@);
    let mut out: Vec<Note> = Vec::new();
    let mut i: usize = 0;
    proof {
        assert(tv.skip(0) =~= tv);
    }
    while i < texts.len()
        invariant
            i <= texts.len(),
            tv == texts@.map_values(|t: String| t@),
            decode_all(tv) == out@.map_values(|n: Note| n@) + decode_all(tv.skip(i as int)),
        decreases texts.len() - i,
    {
        let ghost prev = out@.map_values(|n: Note| n@);
        proof {
            assert(tv.skip(i as int)[0] == tv[i as int]);
            assert(tv.skip(i as int).skip(1) =~= tv.skip(i as int + 1));
            assert(tv[i as int] == texts@[i as int]@);
        }
        match parse_markdown_note(texts[i].as_str()) {
            Some(note) => {
                out.push(note);
                proof {
                    assert(out@.map_values(|n: Note| n@) =~= prev.push(
                        decode_spec(tv[i as int]).unwrap(),
                    ));
                    assert(prev.push(decode_spec(tv[i as int]).unwrap()) + decode_all(
                        tv.skip(i as int + 1),
                    ) =~= prev + decode_all(tv.skip(i as int)));
                }
            },
            None => {},
        }
        i += 1;
    }
    proof {
        assert(tv.skip(texts@.len() as int) =~= Seq::<Seq<char>>::empty());
        assert(out@.map_values(|n: Note| n@) + decode_all(Seq::<Seq<char>>::empty())
            =~= out@.map_values(|n: Note| n@));
    }
    out
}

} // verus!
