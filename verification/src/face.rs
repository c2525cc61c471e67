//! Reading the faces a vision model reports: the `Count: N` line, the
//! `Face N: ...` lines and the `Expression: <word>` in each.
use vstd::prelude::*;
use vstd::string::StringSliceAdditionalSpecFns;
use vstd::utf8::{decode_utf8, encode_utf8, encode_utf8_decode_utf8, is_char_boundary};

use crate::text::{
    chars_of, contains_seq, contains_str, has_prefix, is_whitespace, is_ws, lemma_sep_pos_at,
    lemma_sep_pos_facts, lemma_trim_end_at, lemma_trim_start_at,
    lines, lines_of, parse_usize, parse_usize_spec, sep_pos, slice_chars, spec_lowercase,
    starts_with, string_from, strip_prefix_chars, to_lowercase, trim, trim_chars, views,
};

verus! {

broadcast use vstd::string::group_string_axioms;

/// Description of a single detected face.
#[derive(Debug, Clone, PartialEq, Eq)]
pub struct FaceDescription {
    /// Free-text description of the face (age, expression, ...).
    pub description: String,
    /// The facial expression word (`smiling`, `neutral`, ...).
    pub expression: String,
}

/// Result of face detection on an image.
#[derive(Debug, Clone, PartialEq, Eq)]
pub struct FaceResult {
    /// Number of faces detected.
    pub count: usize,
    /// Per-face descriptions.
    pub faces: Vec<FaceDescription>,
    /// Raw response from the vision model.
    pub raw_response: String,
}

/// The prompt that asks a vision model for faces in the format read here.
pub open spec fn face_prompt() -> Seq<char> {
    "How many human faces do you see in this image? For each face, describe the approximate age, expression, and any notable features. If no faces are visible, say 'No faces detected.' Format: start with 'Count: N' on the first line, then describe each face on its own line starting with 'Face 1:', 'Face 2:', etc. For each face include 'Expression: <word>' somewhere in the line."@
}

/// The prompt that asks a vision model for faces in the format read here.
pub fn face_detection_prompt() -> (p: &'static str)
    ensures
        p@ == face_prompt(),
{
    "How many human faces do you see in this image? For each face, describe the approximate age, expression, and any notable features. If no faces are visible, say 'No faces detected.' Format: start with 'Count: N' on the first line, then describe each face on its own line starting with 'Face 1:', 'Face 2:', etc. For each face include 'Expression: <word>' somewhere in the line."
}

/// The first position at or after `i` where the bytes `p` occur in `h`.
pub open spec fn byte_match_from(h: Seq<u8>, p: Seq<u8>, i: nat) -> Option<nat>
    decreases h.len() + 1 - i,
{
    if i + p.len() > h.len() {
        None
    } else if h.subrange(i as int, (i + p.len()) as int) == p {
        Some(i)
    } else {
        byte_match_from(h, p, i + 1)
    }
}

/// The first position where the bytes `p` occur in `h` (`str::find`).
fn find_bytes(h: &[u8], p: &[u8]) -> (r: Option<usize>)
    ensures
        match r {
            Some(i) => byte_match_from(h@, p@, 0) == Some(i as nat) && i + p.len() <= h.len(),
            None => byte_match_from(h@, p@, 0) is None,
        },
{
    if p.len() > h.len() {
        return None;
    }
    let last = h.len() - p.len();
    let mut i: usize = 0;
    while i <= last
        invariant
            last == h.len() - p.len(),
            p.len() <= h.len(),
            byte_match_from(h@, p@, 0) == byte_match_from(h@, p@, i as nat),
        decreases last + 1 - i,
    {
        let mut k: usize = 0;
        let mut same = true;
        while k < p.len()
            invariant
                i <= last,
                last == h.len() - p.len(),
                k <= p.len(),
                same == forall|m: int| 0 <= m < k ==> h@[i + m] == p@[m],
            decreases p.len() - k,
        {
            if h[i + k] != p[k] {
                same = false;
            }
            k = k + 1;
        }
        if same {
            assert(h@.subrange(i as int, i + p.len()) =~= p@);
            return Some(i);
        }
        proof {
            let m = choose|m: int| 0 <= m < p.len() && h@[i + m] != p@[m];
            assert(h@.subrange(i as int, i + p.len())[m] != p@[m]);
        }
        i = i + 1;
    }
    None
}

/// The bytes of the marker `expression:`.
pub open spec fn marker_bytes() -> Seq<u8> {
    encode_utf8("expression:"@)
}

/// Where the marker `expression:` starts in the lowercase form of a line,
/// as a byte offset.
pub open spec fn marker_at(lower: Seq<char>) -> Option<nat> {
    byte_match_from(encode_utf8(lower), marker_bytes(), 0)
}

/// The line can be cut after the marker: the byte offset just past the
/// marker found in the lowercase form is a character boundary of the line
/// itself (always so where lowercasing keeps byte lengths, as for ASCII).
pub open spec fn expression_slice_ok(line: Seq<char>, lower: Seq<char>) -> bool {
    match marker_at(lower) {
        None => true,
        Some(i) => is_char_boundary(encode_utf8(line), (i + 11) as int),
    }
}

/// The characters that end an expression word.
pub open spec fn is_word_end(c: char) -> bool {
    c == ',' || c == '.' || c == ';' || is_ws(c)
}

/// The expression word at the start of a text: trimmed, up to the first
/// comma, period, semicolon or white space.
pub open spec fn expression_word(after: Seq<char>) -> Seq<char> {
    let t = trim(after);
    trim(t.take(sep_pos(t, |c: char| is_word_end(c)) as int))
}

/// The expression word is one word: it starts the trimmed text, holds no
/// white space, comma, period or semicolon, and is followed (if by anything)
/// by one of those.
pub proof fn lemma_expression_is_one_word(after: Seq<char>)
    ensures
        expression_word(after).len() <= trim(after).len(),
        expression_word(after) == trim(after).take(expression_word(after).len() as int),
        forall|k: int|
            0 <= k < expression_word(after).len() ==> !is_ws(#[trigger] expression_word(after)[k])
                && expression_word(after)[k] != ',' && expression_word(after)[k] != '.'
                && expression_word(after)[k] != ';',
        expression_word(after).len() < trim(after).len() ==> ({
            let c = trim(after)[expression_word(after).len() as int];
            is_ws(c) || c == ',' || c == '.' || c == ';'
        }),
{
    let t = trim(after);
    let sep = |c: char| is_word_end(c);
    lemma_sep_pos_facts(t, sep);
    let k = sep_pos(t, sep) as int;
    let w = t.take(k);
    assert forall|j: int| 0 <= j < w.len() implies !is_word_end(#[trigger] w[j]) by {
        assert(w[j] == t[j]);
        assert(!sep(t[j]));
    }
    lemma_trim_start_at(w, 0);
    assert(w.skip(0) =~= w);
    lemma_trim_end_at(w, w.len() as int);
    assert(w.take(w.len() as int) =~= w);
    assert(expression_word(after) == w);
    if k < t.len() {
        assert(sep(t[k]));
    }
}

/// The expression named on a line, given its lowercase form: the word after
/// the first `expression:` (found in the lowercase form, cut from the line at
/// the same byte offset), or `unknown` when there is none.
pub open spec fn expression_of(line: Seq<char>, lower: Seq<char>) -> Seq<char> {
    match marker_at(lower) {
        None => "unknown"@,
        Some(i) => expression_word(decode_utf8(encode_utf8(line).skip((i + 11) as int))),
    }
}

/// The expression named on any line is a single word: `unknown`, or the
/// word after the marker, with no white space, comma, period or semicolon.
pub proof fn lemma_expression_of_is_one_word(line: Seq<char>, lower: Seq<char>)
    ensures
        forall|k: int|
            0 <= k < expression_of(line, lower).len() ==> !is_ws(
                #[trigger] expression_of(line, lower)[k],
            ) && expression_of(line, lower)[k] != ',' && expression_of(line, lower)[k] != '.'
                && expression_of(line, lower)[k] != ';',
{
    match marker_at(lower) {
        None => {
            reveal_strlit("unknown");
        },
        Some(i) => {
            lemma_expression_is_one_word(decode_utf8(encode_utf8(line).skip((i + 11) as int)));
        },
    }
}

/// The byte offset of the marker `expression:` in a lowercase text.
fn marker_position(lower: &str) -> (r: Option<usize>)
    ensures
        match r {
            Some(i) => marker_at(lower@) == Some(i as nat) && i + 11 <= usize::MAX,
            None => marker_at(lower@) is None,
        },
{
    let marker = "expression:";
    proof {
        reveal_strlit("expression:");
        assert(vstd::string::is_ascii(marker));
    }
    let p = marker.as_bytes();
    assert(p@.len() == 11);
    find_bytes(lower.as_bytes(), p)
}

/// The expression word at the start of a text.
fn expression_word_of(after: &str) -> (w: String)
    ensures
        w@ == expression_word(after@),
{
    let t = trim_chars(&chars_of(after));
    let ghost sep = |c: char| is_word_end(c);
    let mut k: usize = 0;
    while k < t.len() && !(t[k] == ',' || t[k] == '.' || t[k] == ';' || is_whitespace(t[k]))
        invariant
            k <= t.len(),
            sep == (|c: char| is_word_end(c)),
            forall|j: int| 0 <= j < k ==> !sep(#[trigger] t@[j]),
        decreases t.len() - k,
    {
        k = k + 1;
    }
    proof {
        lemma_sep_pos_at(t@, sep, k as int);
    }
    let word = trim_chars(&slice_chars(&t, 0, k));
    assert(t@.subrange(0, k as int) =~= t@.take(k as int));
    string_from(&word)
}

/// The expression named on a line, given the line's lowercase form.
pub fn expression_with_lowercase(line: &str, lower: &str) -> (w: String)
    requires
        expression_slice_ok(line@, lower@),
    ensures
        w@ == expression_of(line@, lower@),
{
    match marker_position(lower) {
        None => "unknown".to_owned(),
        Some(i) => {
            let (_, after) = line.split_at(i + 11);
            proof {
                encode_utf8_decode_utf8(after@);
                let b = encode_utf8(line@);
                assert(b.subrange(i + 11, b.len() as int) =~= b.skip(i + 11));
            }
            expression_word_of(after)
        },
    }
}

/// Whether the line can be cut after the marker found in its lowercase form.
fn slice_ok(line: &str, lower: &str) -> (b: bool)
    ensures
        b == expression_slice_ok(line@, lower@),
{
    match marker_position(lower) {
        None => true,
        Some(i) => line.is_char_boundary(i + 11),
    }
}

/// Extract the expression keyword from a face description line: the word
/// after `Expression:` (in any case), or `unknown`.
pub fn extract_expression(line: &str) -> (w: String)
    requires
        expression_slice_ok(line@, spec_lowercase(line@)),
    ensures
        w@ == expression_of(line@, spec_lowercase(line@)),
{
    let lower = to_lowercase(line);
    expression_with_lowercase(line, lower.as_str())
}

/// The expression keyword of a line, or `None` where the line cannot be cut
/// after the marker found in its lowercase form.
pub fn try_extract_expression(line: &str) -> (r: Option<String>)
    ensures
        r is Some == expression_slice_ok(line@, spec_lowercase(line@)),
        r matches Some(w) ==> w@ == expression_of(line@, spec_lowercase(line@)),
{
    let lower = to_lowercase(line);
    if slice_ok(line, lower.as_str()) {
        Some(extract_expression(line))
    } else {
        None
    }
}

/// A face as plain values: its description and its expression.
pub open spec fn face_view(f: FaceDescription) -> (Seq<char>, Seq<char>) {
    (f.description@, f.expression@)
}

/// The faces as plain values.
pub open spec fn faces_view(fs: Seq<FaceDescription>) -> Seq<(Seq<char>, Seq<char>)> {
    fs.map_values(|f: FaceDescription| face_view(f))
}

/// Whether a trimmed line describes a face: it starts with `Face ` and
/// holds a colon.
pub open spec fn is_face_line(t: Seq<char>) -> bool {
    has_prefix(t, "Face "@) && t.contains(':')
}

/// The face a trimmed face line describes: the trimmed text after its first
/// colon, and its expression.
pub open spec fn face_of_line(t: Seq<char>) -> (Seq<char>, Seq<char>) {
    (
        trim(t.skip(sep_pos(t, |c: char| c == ':') as int + 1)),
        expression_of(t, spec_lowercase(t)),
    )
}

/// The count a trimmed line states: the number after `Count:`, if it
/// parses as one.
pub open spec fn count_of_line(t: Seq<char>) -> Option<nat> {
    if has_prefix(t, "Count:"@) {
        parse_usize_spec(trim(t.skip("Count:"@.len() as int)))
    } else {
        None
    }
}

/// The count (the last one stated, else 0) and the faces read from the
/// lines, in order.
pub open spec fn scan_faces(ls: Seq<Seq<char>>) -> (nat, Seq<(Seq<char>, Seq<char>)>)
    decreases ls.len(),
{
    if ls.len() == 0 {
        (0, seq![])
    } else {
        let (c, f) = scan_faces(ls.drop_last());
        let t = trim(ls.last());
        let c2 = match count_of_line(t) {
            Some(n) => n,
            None => c,
        };
        let f2 = if is_face_line(t) {
            f.push(face_of_line(t))
        } else {
            f
        };
        (c2, f2)
    }
}

/// Whether the (lowercase) text says that there are no faces.
pub open spec fn says_no_faces(lower: Seq<char>) -> bool {
    contains_seq(lower, "no faces"@) || contains_seq(lower, "0 faces"@) || contains_seq(
        lower,
        "no human faces"@,
    )
}

/// The face count and faces of a response: what the lines state, the
/// number of faces where no count was stated (or it was 0), and nothing at
/// all where the response says there are no faces.
pub open spec fn face_report(response: Seq<char>) -> (nat, Seq<(Seq<char>, Seq<char>)>) {
    let (c, f) = scan_faces(lines(response));
    if says_no_faces(spec_lowercase(response)) {
        (0, seq![])
    } else if c == 0 && f.len() > 0 {
        (f.len(), f)
    } else {
        (c, f)
    }
}

/// Whether every face line of the response can be cut after its marker.
pub open spec fn faces_slice_ok(response: Seq<char>) -> bool {
    forall|i: int|
        0 <= i < lines(response).len() && #[trigger] is_face_line(trim(lines(response)[i]))
            ==> expression_slice_ok(
            trim(lines(response)[i]),
            spec_lowercase(trim(lines(response)[i])),
        )
}

/// The position of the first colon.
fn colon_pos(t: &Vec<char>) -> (k: usize)
    ensures
        k == sep_pos(t@, |c: char| c == ':'),
        k < t@.len() <==> t@.contains(':'),
{
    let ghost sep = |c: char| c == ':';
    let mut k: usize = 0;
    while k < t.len() && t[k] != ':'
        invariant
            k <= t.len(),
            sep == (|c: char| c == ':'),
            forall|j: int| 0 <= j < k ==> t@[j] != ':',
        decreases t.len() - k,
    {
        k = k + 1;
    }
    proof {
        lemma_sep_pos_at(t@, sep, k as int);
        if k < t.len() {
            assert(t@[k as int] == ':');
        }
    }
    k
}

/// Whether every face line of the response can be cut after the marker
/// found in its lowercase form.
pub fn faces_can_be_cut(response: &str) -> (b: bool)
    ensures
        b == faces_slice_ok(response@),
{
    let v = chars_of(response);
    let ls = lines_of(&v);
    let ghost lv = views(ls@);
    let face_prefix = chars_of("Face ");
    let mut i: usize = 0;
    while i < ls.len()
        invariant
            i <= ls.len(),
            lv == views(ls@),
            lines(response@) == lv,
            face_prefix@ == "Face "@,
            forall|j: int|
                0 <= j < i && #[trigger] is_face_line(trim(lv[j])) ==> expression_slice_ok(
                    trim(lv[j]),
                    spec_lowercase(trim(lv[j])),
                ),
        decreases ls.len() - i,
    {
        let t = trim_chars(&ls[i]);
        assert(lv[i as int] == ls@[i as int]@);
        if starts_with(&t, &face_prefix) && colon_pos(&t) < t.len() {
            let ts = string_from(&t);
            let lower = to_lowercase(ts.as_str());
            if !slice_ok(ts.as_str(), lower.as_str()) {
                assert(is_face_line(trim(lv[i as int])));
                return false;
            }
        }
        i = i + 1;
    }
    true
}

/// Parse a model's response into the face count and the faces: the
/// `Count: N` line, each `Face N: ...` line with its expression, the number
/// of faces where no count was stated, and nothing where the response says
/// there are no faces.
pub fn parse_face_response(response: &str) -> (r: (usize, Vec<FaceDescription>))
    requires
        faces_slice_ok(response@),
    ensures
        face_report(response@) == (r.0 as nat, faces_view(r.1@)),
{
    let v = chars_of(response);
    let ls = lines_of(&v);
    let ghost lv = views(ls@);
    let mut count: usize = 0;
    let mut faces: Vec<FaceDescription> = Vec::new();
    let face_prefix = chars_of("Face ");
    let mut i: usize = 0;
    while i < ls.len()
        invariant
            i <= ls.len(),
            lv == views(ls@),
            lines(response@) == lv,
            faces_slice_ok(response@),
            face_prefix@ == "Face "@,
            scan_faces(lv.take(i as int)) == (count as nat, faces_view(faces@)),
        decreases ls.len() - i,
    {
        let t = trim_chars(&ls[i]);
        proof {
            assert(lv[i as int] == ls@[i as int]@);
            assert(lv.take(i + 1).drop_last() =~= lv.take(i as int));
            assert(lv.take(i + 1).last() == lv[i as int]);
        }
        let ghost before = faces@;
        match strip_prefix_chars(&t, "Count:") {
            Some(rest) => match parse_usize(&trim_chars(&rest)) {
                Some(n) => {
                    count = n;
                },
                None => {},
            },
            None => {},
        }
        if starts_with(&t, &face_prefix) {
            let k = colon_pos(&t);
            if k < t.len() {
                let ts = string_from(&t);
                assert(is_face_line(trim(lv[i as int])));
                let expression = extract_expression(ts.as_str());
                let description = string_from(&trim_chars(&slice_chars(&t, k + 1, t.len())));
                proof {
                    assert(t@.subrange(k + 1, t@.len() as int) =~= t@.skip(k + 1));
                }
                faces.push(FaceDescription { description, expression });
            }
        }
        proof {
            assert(faces_view(faces@) =~= (if is_face_line(t@) {
                faces_view(before).push(face_of_line(t@))
            } else {
                faces_view(before)
            }));
        }
        i = i + 1;
    }
    proof {
        assert(lv.take(ls.len() as int) =~= lv);
    }
    if count == 0 && faces.len() > 0 {
        count = faces.len();
    }
    let lower = chars_of(to_lowercase(response).as_str());
    if contains_str(&lower, "no faces") || contains_str(&lower, "0 faces") || contains_str(
        &lower,
        "no human faces",
    ) {
        count = 0;
        faces = Vec::new();
        proof {
            assert(faces_view(faces@) =~= seq![]);
        }
    }
    (count, faces)
}

/// The count and faces of a model's response, or `None` where a face line
/// cannot be cut after the marker found in its lowercase form.
pub fn try_parse_face_response(response: &str) -> (r: Option<(usize, Vec<FaceDescription>)>)
    ensures
        r is Some == faces_slice_ok(response@),
        r matches Some(p) ==> face_report(response@) == (p.0 as nat, faces_view(p.1@)),
{
    if faces_can_be_cut(response) {
        Some(parse_face_response(response))
    } else {
        None
    }
}

} // verus!
