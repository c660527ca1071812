use vstd::prelude::*;

use crate::note::NoteView;
use crate::num::{dec_str, dec_str_nat, is_digit, lemma_dec_str_nat_digits, lemma_parse_dec_str};
use crate::codec::{
    encode_spec, decode_spec, apply_line, fold_lines, init_header, split_lines, strip_cr, pid_text,
};
use crate::strutil::{find_sub, trim_start, match_at, lemma_find_sub_is};

verus! {

/// Fit for a one-line header field: no newline, no carriage return.
pub open spec fn printable(s: Seq<char>) -> bool {
    forall|i: int| 0 <= i < s.len() ==> s[i] != '\n' && s[i] != '\r'
}

/// A note the format represents faithfully: one-line text fields, a parent
/// that is not spelled like the absent-parent token, timestamps in signed
/// 64-bit range.
pub open spec fn note_wf(v: NoteView) -> bool {
    &&& printable(v.id)
    &&& printable(v.title)
    &&& printable(v.folder)
    &&& (v.parent_id matches Some(p) ==> printable(p) && p != "null"@)
    &&& -0x8000000000000000 <= v.created_at <= 0x7fffffffffffffff
    &&& -0x8000000000000000 <= v.updated_at <= 0x7fffffffffffffff
}

spec fn body_of(key: Seq<char>, val: Seq<char>) -> Seq<char> {
    key + ": "@ + val
}

spec fn line_of(key: Seq<char>, val: Seq<char>) -> Seq<char> {
    key + ": "@ + val + "\n"@
}

spec fn no_nl(s: Seq<char>) -> bool {
    forall|i: int| 0 <= i < s.len() ==> s[i] != '\n'
}

spec fn no_nn(s: Seq<char>) -> bool {
    forall|k: int| 0 <= k < s.len() - 1 ==> !(#[trigger] s[k] == '\n' && s[k + 1] == '\n')
}

spec fn chainable(s: Seq<char>) -> bool {
    s.len() > 0 && s[0] != '\n' && no_nn(s)
}

spec fn nl_term(s: Seq<char>) -> bool {
    s.len() >= 2 && s.last() == '\n' && (forall|i: int| 0 <= i < s.len() - 1 ==> s[i] != '\n')
}

proof fn lemma_chain(a: Seq<char>, b: Seq<char>)
    requires
        nl_term(a),
        chainable(b),
    ensures
        chainable(a + b),
{
    let c = a + b;
    assert(c[0] == a[0]);
    assert forall|k: int| 0 <= k < c.len() - 1 implies !(#[trigger] c[k] == '\n' && c[k + 1] == '\n') by {
        if k + 1 < a.len() {
            assert(c[k] == a[k]);
            assert(c[k + 1] == a[k + 1]);
        } else if k >= a.len() {
            assert(c[k] == b[k - a.len()]);
            assert(c[k + 1] == b[k + 1 - a.len()]);
        } else {
            assert(c[k + 1] == b[0]);
        }
    }
}

proof fn lemma_line_nl_term(key: Seq<char>, val: Seq<char>)
    requires
        no_nl(key),
        no_nl(val),
    ensures
        nl_term(line_of(key, val)),
        line_of(key, val).len() == key.len() + val.len() + 3,
{
    reveal_strlit(": ");
    reveal_strlit("\n");
    let l = line_of(key, val);
    assert(l.last() == "\n"@[0]);
    assert forall|i: int| 0 <= i < l.len() - 1 implies l[i] != '\n' by {
        if i < key.len() {
            assert(l[i] == key[i]);
        } else if i < key.len() + 2 {
            assert(l[i] == ": "@[i - key.len()]);
        } else {
            assert(l[i] == val[i - key.len() - 2]);
        }
    }
}

proof fn lemma_split_lines_step(body: Seq<char>, rest: Seq<char>)
    requires
        no_nl(body),
        body.len() == 0 || body.last() != '\r',
    ensures
        split_lines(body + "\n"@ + rest) == seq![body] + split_lines(rest),
{
    reveal_strlit("\n");
    let t = body + "\n"@ + rest;
    let m = body.len() as int;
    assert(t.subrange(m, m + 1) =~= "\n"@);
    assert(match_at(t, "\n"@, m));
    assert forall|j: int| 0 <= j < m implies !match_at(t, "\n"@, j) by {
        assert(t[j] == body[j]);
        if match_at(t, "\n"@, j) {
            assert(t.subrange(j, j + 1)[0] == t[j]);
        }
    }
    lemma_find_sub_is(t, "\n"@, m);
    assert(t.subrange(0, m) =~= body);
    assert(strip_cr(body) == body);
    assert(t.skip(m + 1) =~= rest);
}

proof fn lemma_kv_split(key: Seq<char>, val: Seq<char>)
    requires
        forall|i: int| 0 <= i < key.len() ==> key[i] != ':',
    ensures
        find_sub(body_of(key, val), ": "@) == Some(key.len() as int),
        body_of(key, val).subrange(0, key.len() as int) == key,
        body_of(key, val).skip(key.len() + ": "@.len() as int) == val,
{
    reveal_strlit(": ");
    let b = body_of(key, val);
    let m = key.len() as int;
    assert(b.subrange(m, m + 2) =~= ": "@);
    assert(match_at(b, ": "@, m));
    assert forall|j: int| 0 <= j < m implies !match_at(b, ": "@, j) by {
        assert(b[j] == key[j]);
        if match_at(b, ": "@, j) {
            assert(b.subrange(j, j + 2)[0] == b[j]);
        }
    }
    lemma_find_sub_is(b, ": "@, m);
    assert(b.subrange(0, m) =~= key);
    assert(b.skip(m + 2) =~= val);
}

proof fn lemma_dec_str_printable(n: int)
    requires
        -0x8000000000000000 <= n <= 0x7fffffffffffffff,
    ensures
        printable(dec_str(n)),
        dec_str(n).len() > 0,
{
    if n >= 0 {
        lemma_dec_str_nat_digits(n);
        assert forall|i: int| 0 <= i < dec_str(n).len() implies dec_str(n)[i] != '\n' && dec_str(
            n,
        )[i] != '\r' by {
            assert(is_digit(dec_str(n)[i]));
        }
    } else {
        lemma_dec_str_nat_digits(-n);
        let s = dec_str(n);
        assert forall|i: int| 0 <= i < s.len() implies s[i] != '\n' && s[i] != '\r' by {
            if i >= 1 {
                assert(s[i] == dec_str_nat(-n)[i - 1]);
                assert(is_digit(dec_str_nat(-n)[i - 1]));
            }
        }
    }
}

// The encoding, regrouped into its header lines.
spec fn line1(v: NoteView) -> Seq<char> {
    line_of("id"@, v.id)
}

spec fn line2(v: NoteView) -> Seq<char> {
    line_of("title"@, v.title)
}

spec fn line3(v: NoteView) -> Seq<char> {
    line_of("folder"@, v.folder)
}

spec fn line4(v: NoteView) -> Seq<char> {
    line_of("parent_id"@, pid_text(v.parent_id))
}

spec fn line5(v: NoteView) -> Seq<char> {
    line_of("created_at"@, dec_str(v.created_at))
}

spec fn line6(v: NoteView) -> Seq<char> {
    line_of("updated_at"@, dec_str(v.updated_at))
}

spec fn rest5(v: NoteView) -> Seq<char> {
    line5(v) + line6(v)
}

spec fn rest4(v: NoteView) -> Seq<char> {
    line4(v) + rest5(v)
}

spec fn rest3(v: NoteView) -> Seq<char> {
    line3(v) + rest4(v)
}

spec fn rest2(v: NoteView) -> Seq<char> {
    line2(v) + rest3(v)
}

spec fn rest1(v: NoteView) -> Seq<char> {
    line1(v) + rest2(v)
}

spec fn header_of(v: NoteView) -> Seq<char> {
    "---\n"@ + rest1(v)
}

spec fn body1(v: NoteView) -> Seq<char> {
    body_of("id"@, v.id)
}

spec fn body2(v: NoteView) -> Seq<char> {
    body_of("title"@, v.title)
}

spec fn body3(v: NoteView) -> Seq<char> {
    body_of("folder"@, v.folder)
}

spec fn body4(v: NoteView) -> Seq<char> {
    body_of("parent_id"@, pid_text(v.parent_id))
}

spec fn body5(v: NoteView) -> Seq<char> {
    body_of("created_at"@, dec_str(v.created_at))
}

spec fn body6(v: NoteView) -> Seq<char> {
    body_of("updated_at"@, dec_str(v.updated_at))
}

/// The flat encoding text is the header block, the closing delimiter with
/// its blank line, and the content.
#[verifier::rlimit(100)]
#[verifier::spinoff_prover]
proof fn lemma_encode_structure(v: NoteView)
    ensures
        encode_spec(v) == header_of(v) + "---\n\n"@ + v.content,
{
    reveal_strlit("---\nid: ");
    reveal_strlit("\ntitle: ");
    reveal_strlit("\nfolder: ");
    reveal_strlit("\nparent_id: ");
    reveal_strlit("\ncreated_at: ");
    reveal_strlit("\nupdated_at: ");
    reveal_strlit("\n---\n\n");
    reveal_strlit("---\n\n");
    reveal_strlit("---\n");
    reveal_strlit("\n");
    reveal_strlit(": ");
    reveal_strlit("id");
    reveal_strlit("title");
    reveal_strlit("folder");
    reveal_strlit("parent_id");
    reveal_strlit("created_at");
    reveal_strlit("updated_at");
    assert(encode_spec(v) =~= header_of(v) + "---\n\n"@ + v.content);
}

/// Every field value on a header line is a single printable line.
proof fn lemma_vals_printable(v: NoteView)
    requires
        note_wf(v),
    ensures
        printable(pid_text(v.parent_id)),
        printable(dec_str(v.created_at)),
        printable(dec_str(v.updated_at)),
{
    lemma_dec_str_printable(v.created_at);
    lemma_dec_str_printable(v.updated_at);
    match v.parent_id {
        Some(_) => {
        },
        None => {
            reveal_strlit("null");
            assert forall|i: int| 0 <= i < "null"@.len() implies "null"@[i] != '\n' && "null"@[i]
                != '\r' by {
                if i == 0 {
                } else if i == 1 {
                } else if i == 2 {
                } else {
                    assert(i == 3);
                }
            }
        },
    }
}

/// The keys hold no newline, carriage return or colon.
proof fn lemma_keys_clean()
    ensures
        no_nl("id"@) && no_nl("title"@) && no_nl("folder"@) && no_nl("parent_id"@) && no_nl(
            "created_at"@,
        ) && no_nl("updated_at"@),
{
    lemma_kv_key_ok();
    reveal_strlit("id");
    reveal_strlit("title");
    reveal_strlit("folder");
    reveal_strlit("parent_id");
    reveal_strlit("created_at");
    reveal_strlit("updated_at");
}

/// The header block never holds two adjacent newlines.
proof fn lemma_header_shape(v: NoteView)
    requires
        note_wf(v),
    ensures
        chainable(header_of(v)),
        no_nn(header_of(v)),
        header_of(v).len() >= 4,
{
    lemma_vals_printable(v);
    lemma_keys_clean();
    lemma_line_nl_term("id"@, v.id);
    lemma_line_nl_term("title"@, v.title);
    lemma_line_nl_term("folder"@, v.folder);
    lemma_line_nl_term("parent_id"@, pid_text(v.parent_id));
    lemma_line_nl_term("created_at"@, dec_str(v.created_at));
    lemma_line_nl_term("updated_at"@, dec_str(v.updated_at));
    assert(chainable(line6(v)));
    lemma_chain(line5(v), line6(v));
    lemma_chain(line4(v), rest5(v));
    lemma_chain(line3(v), rest4(v));
    lemma_chain(line2(v), rest3(v));
    lemma_chain(line1(v), rest2(v));
    reveal_strlit("---\n");
    reveal_strlit("\n");
    assert(nl_term("---\n"@));
    lemma_chain("---\n"@, rest1(v));
}

/// In the encoded text the first delimiter occurrence sits exactly at the
/// header's end: the header has no adjacent newlines, and the dashes of the
/// delimiter rule out an occurrence straddling the boundary.
#[verifier::rlimit(100)]
#[verifier::spinoff_prover]
proof fn lemma_delim_at(v: NoteView)
    requires
        note_wf(v),
        chainable(header_of(v)),
    ensures
        find_sub(header_of(v) + "---\n\n"@ + v.content, "---\n\n"@) == Some(
            header_of(v).len() as int,
        ),
{
    reveal_strlit("---\n\n");
    let hdr = header_of(v);
    let s = hdr + "---\n\n"@ + v.content;
    let m = hdr.len() as int;
    assert(s.subrange(m, m + 5) =~= "---\n\n"@);
    assert(match_at(s, "---\n\n"@, m));
    assert forall|j: int| 0 <= j < m implies !match_at(s, "---\n\n"@, j) by {
        if match_at(s, "---\n\n"@, j) {
            assert(s.subrange(j, j + 5)[3] == s[j + 3]);
            assert(s.subrange(j, j + 5)[4] == s[j + 4]);
            assert(s[j + 3] == '\n' && s[j + 4] == '\n');
            assert(s[m] == '-');
            assert(s[m + 1] == '-');
            assert(s[m + 2] == '-');
            if j + 4 <= m - 1 {
                assert(s[j + 3] == hdr[j + 3]);
                assert(s[j + 4] == hdr[j + 4]);
                assert(!(hdr[j + 3] == '\n' && hdr[j + 4] == '\n'));
            }
        }
    }
    lemma_find_sub_is(s, "---\n\n"@, m);
}

/// Header cleanup strips the opening `---` line and nothing more.
proof fn lemma_trim_header(v: NoteView)
    requires
        note_wf(v),
    ensures
        trim_start(header_of(v), "---\n"@) == rest1(v),
{
    reveal_strlit("---\n");
    reveal_strlit("id");
    reveal_strlit(": ");
    let hdr = header_of(v);
    let r = rest1(v);
    assert(hdr.subrange(0, 4) =~= "---\n"@);
    assert(hdr.skip(4) =~= r);
    assert(r[0] == 'i');
    if "---\n"@.len() <= r.len() && r.subrange(0, 4) == "---\n"@ {
        assert(r.subrange(0, 4)[0] == r[0]);
        assert(false);
    }
    assert(trim_start(hdr, "---\n"@) == trim_start(r, "---\n"@));
}

/// The trimmed header splits into exactly the six field lines.
#[verifier::spinoff_prover]
proof fn lemma_split_header(v: NoteView)
    requires
        note_wf(v),
    ensures
        split_lines(rest1(v)) == seq![body1(v), body2(v), body3(v), body4(v), body5(v), body6(v)],
{
    lemma_vals_printable(v);
    lemma_keys_clean();
    reveal_strlit(": ");
    reveal_strlit("id");
    reveal_strlit("title");
    reveal_strlit("folder");
    reveal_strlit("parent_id");
    reveal_strlit("created_at");
    reveal_strlit("updated_at");
    lemma_body_tail_ok("id"@, v.id);
    lemma_body_tail_ok("title"@, v.title);
    lemma_body_tail_ok("folder"@, v.folder);
    lemma_body_tail_ok("parent_id"@, pid_text(v.parent_id));
    lemma_body_tail_ok("created_at"@, dec_str(v.created_at));
    lemma_body_tail_ok("updated_at"@, dec_str(v.updated_at));
    assert(rest1(v) == body1(v) + "\n"@ + rest2(v));
    lemma_split_lines_step(body1(v), rest2(v));
    assert(rest2(v) == body2(v) + "\n"@ + rest3(v));
    lemma_split_lines_step(body2(v), rest3(v));
    assert(rest3(v) == body3(v) + "\n"@ + rest4(v));
    lemma_split_lines_step(body3(v), rest4(v));
    assert(rest4(v) == body4(v) + "\n"@ + rest5(v));
    lemma_split_lines_step(body4(v), rest5(v));
    assert(rest5(v) == body5(v) + "\n"@ + line6(v));
    lemma_split_lines_step(body5(v), line6(v));
    assert(line6(v) =~= body6(v) + "\n"@ + Seq::<char>::empty());
    lemma_split_lines_step(body6(v), Seq::<char>::empty());
    assert(split_lines(Seq::<char>::empty()) =~= Seq::<Seq<char>>::empty());
    assert(split_lines(rest1(v)) =~= seq![
        body1(v),
        body2(v),
        body3(v),
        body4(v),
        body5(v),
        body6(v),
    ]);
}

/// Folding the six field lines over the defaults rebuilds the note.
#[verifier::rlimit(100)]
#[verifier::spinoff_prover]
proof fn lemma_fold_header(v: NoteView)
    requires
        note_wf(v),
    ensures
        fold_lines(
            init_header(v.content),
            seq![body1(v), body2(v), body3(v), body4(v), body5(v), body6(v)],
        ) == v,
{
    reveal_strlit("id");
    reveal_strlit("title");
    reveal_strlit("folder");
    reveal_strlit("parent_id");
    reveal_strlit("created_at");
    reveal_strlit("updated_at");
    reveal_strlit("null");
    reveal_strlit("default");
    reveal_strlit(": ");
    lemma_kv_key_ok();
    lemma_kv_split("id"@, v.id);
    lemma_kv_split("title"@, v.title);
    lemma_kv_split("folder"@, v.folder);
    lemma_kv_split("parent_id"@, pid_text(v.parent_id));
    lemma_kv_split("created_at"@, dec_str(v.created_at));
    lemma_kv_split("updated_at"@, dec_str(v.updated_at));
    lemma_parse_dec_str(v.created_at);
    lemma_parse_dec_str(v.updated_at);
    let lines = seq![body1(v), body2(v), body3(v), body4(v), body5(v), body6(v)];
    assert(lines.skip(1) =~= seq![body2(v), body3(v), body4(v), body5(v), body6(v)]);
    assert(seq![body2(v), body3(v), body4(v), body5(v), body6(v)].skip(1) =~= seq![
        body3(v),
        body4(v),
        body5(v),
        body6(v),
    ]);
    assert(seq![body3(v), body4(v), body5(v), body6(v)].skip(1) =~= seq![
        body4(v),
        body5(v),
        body6(v),
    ]);
    assert(seq![body4(v), body5(v), body6(v)].skip(1) =~= seq![body5(v), body6(v)]);
    assert(seq![body5(v), body6(v)].skip(1) =~= seq![body6(v)]);
    assert(seq![body6(v)].skip(1) =~= Seq::<Seq<char>>::empty());
    let ls2 = seq![body2(v), body3(v), body4(v), body5(v), body6(v)];
    let ls3 = seq![body3(v), body4(v), body5(v), body6(v)];
    let ls4 = seq![body4(v), body5(v), body6(v)];
    let ls5 = seq![body5(v), body6(v)];
    let ls6 = seq![body6(v)];
    let st0 = init_header(v.content);
    let st1 = apply_line(st0, body1(v));
    let st2 = apply_line(st1, body2(v));
    let st3 = apply_line(st2, body3(v));
    let st4 = apply_line(st3, body4(v));
    let st5 = apply_line(st4, body5(v));
    let st6 = apply_line(st5, body6(v));
    assert(st1 =~= (NoteView { id: v.id, ..st0 }));
    assert(st2 =~= (NoteView { title: v.title, ..st1 }));
    assert(st3 =~= (NoteView { folder: v.folder, ..st2 }));
    match v.parent_id {
        Some(p) => {
            assert(pid_text(v.parent_id) == p);
            assert(p != "null"@);
            assert(st4 =~= (NoteView { parent_id: Some(p), ..st3 }));
        },
        None => {
            assert(pid_text(v.parent_id) == "null"@);
            assert(st4 =~= (NoteView { parent_id: None, ..st3 }));
        },
    }
    assert(st5 =~= (NoteView { created_at: v.created_at, ..st4 }));
    if "updated_at"@ == "created_at"@ {
        assert("updated_at"@[0] == "created_at"@[0]);
        assert(false);
    }
    assert(st6 =~= (NoteView { updated_at: v.updated_at, ..st5 }));
    assert(fold_lines(st0, lines) == fold_lines(st1, ls2));
    assert(fold_lines(st1, ls2) == fold_lines(st2, ls3));
    assert(fold_lines(st2, ls3) == fold_lines(st3, ls4));
    assert(fold_lines(st3, ls4) == fold_lines(st4, ls5));
    assert(fold_lines(st4, ls5) == fold_lines(st5, ls6));
    assert(fold_lines(st5, ls6) == fold_lines(st6, Seq::<Seq<char>>::empty()));
    assert(fold_lines(st6, Seq::<Seq<char>>::empty()) == st6);
    assert(st6 =~= v);
}

/// THE round trip of the on-disk format: encoding any faithfully
/// representable note and decoding the text recovers the note exactly,
/// whatever its content holds.
pub proof fn lemma_encode_decode_identity(v: NoteView)
    requires
        note_wf(v),
    ensures
        decode_spec(encode_spec(v)) == Some(v),
{
    reveal_strlit("---\n\n");
    lemma_encode_structure(v);
    lemma_header_shape(v);
    lemma_delim_at(v);
    let s = encode_spec(v);
    let hdr = header_of(v);
    let m = hdr.len() as int;
    assert(s.subrange(0, m) =~= hdr);
    assert(s.skip(m + "---\n\n"@.len() as int) =~= v.content);
    lemma_trim_header(v);
    lemma_split_header(v);
    lemma_fold_header(v);
    assert(decode_spec(s) == Some(v));
}


/// Each fixed header key holds no colon, so the first `: ` of a field line
/// sits right after the key.
proof fn lemma_kv_key_ok()
    ensures
        forall|i: int| 0 <= i < "id"@.len() ==> #[trigger] "id"@[i] != ':',
        forall|i: int| 0 <= i < "title"@.len() ==> #[trigger] "title"@[i] != ':',
        forall|i: int| 0 <= i < "folder"@.len() ==> #[trigger] "folder"@[i] != ':',
        forall|i: int| 0 <= i < "parent_id"@.len() ==> #[trigger] "parent_id"@[i] != ':',
        forall|i: int| 0 <= i < "created_at"@.len() ==> #[trigger] "created_at"@[i] != ':',
        forall|i: int| 0 <= i < "updated_at"@.len() ==> #[trigger] "updated_at"@[i] != ':',
{
    reveal_strlit("id");
    reveal_strlit("title");
    reveal_strlit("folder");
    reveal_strlit("parent_id");
    reveal_strlit("created_at");
    reveal_strlit("updated_at");
}

/// A field line's last character before the newline is never a carriage
/// return, so `str::lines` keeps the body intact.
proof fn lemma_body_tail_ok(key: Seq<char>, val: Seq<char>)
    requires
        key.len() > 0,
        forall|i: int| 0 <= i < val.len() ==> val[i] != '\r',
    ensures
        body_of(key, val).len() > 0,
        body_of(key, val).last() != '\r',
{
    reveal_strlit(": ");
    let b = body_of(key, val);
    if val.len() > 0 {
        assert(b.last() == val[val.len() - 1]);
    } else {
        assert(b.last() == ": "@[1]);
    }
}

} // verus!
