use vstd::prelude::*;

use crate::note::{Note, NoteView};
use crate::num::{dec_str, parse_i64_spec, i64_to_string, parse_i64};
use crate::strutil::{find_sub, trim_start, find_sub_str, str_eq, check_at, lemma_find_sub_bounds};

verus! {

// ----------------------------------------------------------------------------
// The on-disk format, stated mathematically.
//
// A note file is a header block opened by a `---` line and closed by a `---`
// line followed by a blank line, one `key: value` line per metadata field,
// and then the raw content verbatim:
//
//     ---
//     id: <string>
//     title: <string>
//     folder: <string>
//     parent_id: <string or the token null>
//     created_at: <integer>
//     updated_at: <integer>
//     ---
//
//     <content>
// ----------------------------------------------------------------------------

/// How an absent parent serializes: the literal token `null`.
pub open spec fn pid_text(p: Option<Seq<char>>) -> Seq<char> {
    match p {
        Some(s) => s,
        None => "null"@,
    }
}

/// The exact text `encode_note` produces for a note.
pub open spec fn encode_spec(v: NoteView) -> Seq<char> {
    "---\nid: "@ + v.id + "\ntitle: "@ + v.title + "\nfolder: "@ + v.folder + "\nparent_id: "@
        + pid_text(v.parent_id) + "\ncreated_at: "@ + dec_str(v.created_at) + "\nupdated_at: "@
        + dec_str(v.updated_at) + "\n---\n\n"@ + v.content
}

/// Drops a single trailing carriage return, as `str::lines` does.
pub open spec fn strip_cr(l: Seq<char>) -> Seq<char> {
    if l.len() > 0 && l[l.len() - 1] == '\r' {
        l.drop_last()
    } else {
        l
    }
}

/// The line decomposition `str::lines` yields: split at every newline, a
/// trailing newline opens no empty final line, each line loses one trailing
/// carriage return if present.
pub open spec fn split_lines(s: Seq<char>) -> Seq<Seq<char>>
    decreases s.len(),
    via split_lines_dec
{
    if s.len() == 0 {
        Seq::empty()
    } else {
        match find_sub(s, "\n"@) {
            None => seq![strip_cr(s)],
            Some(i) => seq![strip_cr(s.subrange(0, i))] + split_lines(s.skip(i + 1)),
        }
    }
}

#[via_fn]
proof fn split_lines_dec(s: Seq<char>) {
    lemma_find_sub_bounds(s, "\n"@);
    reveal_strlit("\n");
}

/// Header fields before any `key: value` line is read: empty id and title,
/// the `default` folder, no parent, zero timestamps.
pub open spec fn init_header(content: Seq<char>) -> NoteView {
    NoteView {
        id: Seq::empty(),
        title: Seq::empty(),
        content: content,
        folder: "default"@,
        parent_id: None,
        created_at: 0,
        updated_at: 0,
    }
}

/// Effect of one header line on the fields: the line is split at the first
/// `: `; an unsplittable line and an unknown key are ignored; a recognized
/// key overwrites its field; `parent_id` reads the token `null` as absent;
/// timestamps go through the tolerant decimal parse.
pub open spec fn apply_line(st: NoteView, line: Seq<char>) -> NoteView {
    match find_sub(line, ": "@) {
        None => st,
        Some(j) => {
            let k = line.subrange(0, j);
            let v = line.skip(j + ": "@.len());
            if k == "id"@ {
                NoteView { id: v, ..st }
            } else if k == "title"@ {
                NoteView { title: v, ..st }
            } else if k == "folder"@ {
                NoteView { folder: v, ..st }
            } else if k == "parent_id"@ {
                NoteView {
                    parent_id: if v == "null"@ {
                        None
                    } else {
                        Some(v)
                    },
                    ..st
                }
            } else if k == "created_at"@ {
                NoteView { created_at: parse_i64_spec(v), ..st }
            } else if k == "updated_at"@ {
                NoteView { updated_at: parse_i64_spec(v), ..st }
            } else {
                st
            }
        },
    }
}

/// Header lines applied first to last; later lines overwrite earlier ones.
pub open spec fn fold_lines(st: NoteView, lines: Seq<Seq<char>>) -> NoteView
    decreases lines.len(),
{
    if lines.len() == 0 {
        st
    } else {
        fold_lines(apply_line(st, lines[0]), lines.skip(1))
    }
}

/// What `parse_markdown_note` recovers from a file's text: nothing unless
/// the closing delimiter followed by a blank line occurs somewhere; otherwise
/// the text before the first such occurrence, less any leading `---` lines,
/// is read line by line as header fields, and everything after the occurrence
/// is the content, verbatim.
pub open spec fn decode_spec(s: Seq<char>) -> Option<NoteView> {
    match find_sub(s, "---\n\n"@) {
        None => None,
        Some(i) => {
            let meta = trim_start(s.subrange(0, i), "---\n"@);
            let content = s.skip(i + "---\n\n"@.len());
            Some(fold_lines(init_header(content), split_lines(meta)))
        },
    }
}

/// Serializes a note in the frontmatter format, exactly as `encode_spec`
/// states it.
pub fn encode_note(note: &Note) -> (r: String)
    ensures
        r@ == encode_spec(note@),
{
    let mut s = String::from_str("---\nid: ");
    s.append(note.id.as_str());
    s.append("\ntitle: ");
    s.append(note.title.as_str());
    s.append("\nfolder: ");
    s.append(note.folder.as_str());
    s.append("\nparent_id: ");
    match &note.parent_id {
        Some(p) => s.append(p.as_str()),
        None => s.append("null"),
    }
    s.append("\ncreated_at: ");
    let created = i64_to_string(note.created_at);
    s.append(created.as_str());
    s.append("\nupdated_at: ");
    let updated = i64_to_string(note.updated_at);
    s.append(updated.as_str());
    s.append("\n---\n\n");
    s.append(note.content.as_str());
    proof {
        assert(s@ =~= encode_spec(note@));
    }
    s
}

/// Removes every leading `---` line, as the decoder's header cleanup does.
fn trim_open(s: &str) -> (r: String)
    ensures
        r@ == trim_start(s@, "---\n"@),
    decreases s@.len(),
{
    let n = s.unicode_len();
    proof {
        reveal_strlit("---\n");
    }
    if n >= 4 && check_at(s, "---\n", 0) {
        let rest = s.substring_char(4, n);
        proof {
            assert(rest@ =~= s@.skip(4));
        }
        trim_open(rest)
    } else {
        String::from_str(s)
    }
}

/// Drops a single trailing carriage return.
fn strip_cr_exec(l: String) -> (r: String)
    ensures
        r@ == strip_cr(l@),
{
    let n = l.as_str().unicode_len();
    if n > 0 && l.as_str().get_char(n - 1) == '\r' {
        let r = String::from_str(l.as_str().substring_char(0, n - 1));
        proof {
            assert(r@ =~= l@.drop_last());
        }
        r
    } else {
        l
    }
}

/// Splits text into lines, as `split_lines` describes.
fn split_lines_exec(s: &str) -> (r: Vec<String>)
    ensures
        r@.map_values(|l: String| l@) == split_lines(s@),
    decreases s@.len(),
{
    let n = s.unicode_len();
    if n == 0 {
        let r: Vec<String> = Vec::new();
        proof {
            assert(r@.map_values(|l: String| l@) =~= split_lines(s@));
        }
        return r;
    }
    match find_sub_str(s, "\n") {
        None => {
            let mut r: Vec<String> = Vec::new();
            r.push(strip_cr_exec(String::from_str(s)));
            proof {
                assert(r@.map_values(|l: String| l@) =~= split_lines(s@));
            }
            r
        },
        Some(i) => {
            proof {
                lemma_find_sub_bounds(s@, "\n"@);
                reveal_strlit("\n");
            }
            let head = strip_cr_exec(String::from_str(s.substring_char(0, i)));
            let tail = s.substring_char(i + 1, n);
            proof {
                assert(tail@ =~= s@.skip(i + 1));
            }
            let mut rest = split_lines_exec(tail);
            let mut r: Vec<String> = Vec::new();
            r.push(head);
            r.append(&mut rest);
            proof {
                assert(r@.map_values(|l: String| l@) =~= split_lines(s@));
            }
            r
        },
    }
}

/// Decodes a note file, tolerantly: `None` only when the closing delimiter
/// line is nowhere to be found; otherwise the fields that the header states,
/// with defaults for whatever is missing or malformed, exactly as
/// `decode_spec` states.
pub fn parse_markdown_note(content: &str) -> (r: Option<Note>)
    ensures
        r matches Some(note) ==> decode_spec(content@) == Some(note@),
        r is None ==> decode_spec(content@) is None,
{
    let idx = match find_sub_str(content, "---\n\n") {
        None => {
            return None;
        },
        Some(i) => i,
    };
    let n = content.unicode_len();
    proof {
        lemma_find_sub_bounds(content@, "---\n\n"@);
        reveal_strlit("---\n\n");
    }
    let meta_raw = content.substring_char(0, idx);
    let body = content.substring_char(idx + 5, n);
    let ghost bodyv = content@.skip(idx + "---\n\n"@.len());
    proof {
        assert(body@ =~= bodyv);
    }
    let meta = trim_open(meta_raw);
    let lines = split_lines_exec(meta.as_str());
    let ghost linesv = lines@.map_values(|l: String| l@);

    let mut id = String::new();
    let mut title = String::new();
    let mut folder = String::from_str("default");
    let mut parent_id: Option<String> = None;
    let mut created_at: i64 = 0;
    let mut updated_at: i64 = 0;

    proof {
        assert(linesv.skip(0) =~= linesv);
    }
    let mut k: usize = 0;
    while k < lines.len()
        invariant
            k <= lines.len(),
            linesv == lines@.map_values(|l: String| l@),
            fold_lines(init_header(bodyv), linesv) == fold_lines(
                (NoteView {
                    id: id@,
                    title: title@,
                    content: bodyv,
                    folder: folder@,
                    parent_id: match &parent_id {
                        Some(p) => Some(p@),
                        None => None,
                    },
                    created_at: created_at as int,
                    updated_at: updated_at as int,
                }),
                linesv.skip(k as int),
            ),
        decreases lines.len() - k,
    {
        let ghost st = NoteView {
            id: id@,
            title: title@,
            content: bodyv,
            folder: folder@,
            parent_id: match &parent_id {
                Some(p) => Some(p@),
                None => None,
            },
            created_at: created_at as int,
            updated_at: updated_at as int,
        };
        proof {
            assert(linesv.skip(k as int)[0] == linesv[k as int]);
            assert(linesv.skip(k as int).skip(1) =~= linesv.skip(k as int + 1));
            assert(fold_lines(st, linesv.skip(k as int)) == fold_lines(
                apply_line(st, linesv[k as int]),
                linesv.skip(k as int + 1),
            ));
        }
        let line = &lines[k];
        match find_sub_str(line.as_str(), ": ") {
            None => {},
            Some(j) => {
                proof {
                    lemma_find_sub_bounds(line@, ": "@);
                    reveal_strlit(": ");
                }
                let ll = line.as_str().unicode_len();
                let key = line.as_str().substring_char(0, j);
                let val = line.as_str().substring_char(j + 2, ll);
                proof {
                    assert(key@ =~= line@.subrange(0, j as int));
                    assert(val@ =~= line@.skip(j + ": "@.len()));
                }
                if str_eq(key, "id") {
                    id = String::from_str(val);
                } else if str_eq(key, "title") {
                    title = String::from_str(val);
                } else if str_eq(key, "folder") {
                    folder = String::from_str(val);
                } else if str_eq(key, "parent_id") {
                    if str_eq(val, "null") {
                        parent_id = None;
                    } else {
                        parent_id = Some(String::from_str(val));
                    }
                } else if str_eq(key, "created_at") {
                    created_at = parse_i64(val);
                } else if str_eq(key, "updated_at") {
                    updated_at = parse_i64(val);
                }
            },
        }
        k += 1;
    }
    proof {
        assert(linesv.skip(linesv.len() as int) =~= Seq::<Seq<char>>::empty());
    }
    Some(
        Note {
            id,
            title,
            content: body.to_owned(),
            folder,
            parent_id,
            created_at,
            updated_at,
        },
    )
}

/// The key a header line states, if the line splits at a `: ` at all.
pub open spec fn line_key(line: Seq<char>) -> Option<Seq<char>> {
    match find_sub(line, ": "@) {
        None => None,
        Some(j) => Some(line.subrange(0, j)),
    }
}

/// Decode tolerance, field by field: a header that nowhere states a key
/// leaves that key's field at its default, and the content is never the
/// header's to change.
pub proof fn lemma_fold_keeps_unset_fields(st: NoteView, lines: Seq<Seq<char>>)
    ensures
        (forall|i: int| 0 <= i < lines.len() ==> line_key(#[trigger] lines[i]) != Some("id"@))
            ==> fold_lines(st, lines).id == st.id,
        (forall|i: int| 0 <= i < lines.len() ==> line_key(#[trigger] lines[i]) != Some("title"@))
            ==> fold_lines(st, lines).title == st.title,
        (forall|i: int| 0 <= i < lines.len() ==> line_key(#[trigger] lines[i]) != Some("folder"@))
            ==> fold_lines(st, lines).folder == st.folder,
        (forall|i: int| 0 <= i < lines.len() ==> line_key(#[trigger] lines[i]) != Some(
            "parent_id"@,
        )) ==> fold_lines(st, lines).parent_id == st.parent_id,
        (forall|i: int| 0 <= i < lines.len() ==> line_key(#[trigger] lines[i]) != Some(
            "created_at"@,
        )) ==> fold_lines(st, lines).created_at == st.created_at,
        (forall|i: int| 0 <= i < lines.len() ==> line_key(#[trigger] lines[i]) != Some(
            "updated_at"@,
        )) ==> fold_lines(st, lines).updated_at == st.updated_at,
        fold_lines(st, lines).content == st.content,
    decreases lines.len(),
{
    if lines.len() > 0 {
        let rest = lines.skip(1);
        lemma_fold_keeps_unset_fields(apply_line(st, lines[0]), rest);
        assert(forall|i: int| 0 <= i < rest.len() ==> #[trigger] rest[i] == lines[i + 1]);
    }
}

} // verus!
