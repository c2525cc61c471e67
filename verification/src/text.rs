use vstd::prelude::*;

verus! {

broadcast use vstd::string::group_string_axioms;

/// The characters of a string slice, in order.
pub fn chars_of(s: &str) -> (v: Vec<char>)
    ensures
        v@ == s@,
{
    let mut v: Vec<char> = Vec::new();
    for c in it: s.chars()
        invariant
            v@ == it.seq().take(it.index() as int),
            it.seq() == s@,
    {
        v.push(c);
    }
    v
}

/// Appends one character to a string.
#[verifier::external_body]
pub(crate) fn push_char(s: &mut String, c: char)
    ensures
        final(s)@ == old(s)@.push(c),
{
    s.push(c);
}

/// The concatenation of two string slices.
pub fn concat_str(a: &str, b: &str) -> (s: String)
    ensures
        s@ == a@ + b@,
{
    let mut s = a.to_owned();
    push_str(&mut s, b);
    s
}

/// Appends a string slice to a string.
pub fn push_str(s: &mut String, t: &str)
    ensures
        final(s)@ == old(s)@ + t@,
{
    let tv = chars_of(t);
    let ghost start = s@;
    let mut i: usize = 0;
    while i < tv.len()
        invariant
            i <= tv.len(),
            tv@ == t@,
            s@ == start + tv@.take(i as int),
        decreases tv.len() - i,
    {
        push_char(s, tv[i]);
        assert(tv@.take(i + 1) == tv@.take(i as int).push(tv@[i as int]));
        i = i + 1;
    }
    assert(tv@.take(tv.len() as int) == tv@);
}

/// Whether two character sequences are equal.
pub fn chars_eq(a: &Vec<char>, b: &Vec<char>) -> (r: bool)
    ensures
        r == (a@ == b@),
{
    if a.len() != b.len() {
        return false;
    }
    let mut i: usize = 0;
    while i < a.len()
        invariant
            a.len() == b.len(),
            i <= a.len(),
            forall|j: int| 0 <= j < i ==> a@[j] == b@[j],
        decreases a.len() - i,
    {
        if a[i] != b[i] {
            return false;
        }
        i = i + 1;
    }
    assert(a@ =~= b@);
    true
}

/// Whether two string slices hold the same characters.
pub fn str_eq(a: &str, b: &str) -> (r: bool)
    ensures
        r == (a@ == b@),
{
    let av = chars_of(a);
    let bv = chars_of(b);
    chars_eq(&av, &bv)
}

/// The string holding the given characters.
pub fn string_from(v: &Vec<char>) -> (s: String)
    ensures
        s@ == v@,
{
    let mut s = String::new();
    let mut i: usize = 0;
    while i < v.len()
        invariant
            i <= v.len(),
            s@ == v@.take(i as int),
        decreases v.len() - i,
    {
        push_char(&mut s, v[i]);
        assert(v@.take(i + 1) == v@.take(i as int).push(v@[i as int]));
        i = i + 1;
    }
    assert(v@.take(v.len() as int) == v@);
    s
}

/// The characters `v[a..b]`.
pub fn slice_chars(v: &Vec<char>, a: usize, b: usize) -> (r: Vec<char>)
    requires
        a <= b <= v.len(),
    ensures
        r@ == v@.subrange(a as int, b as int),
{
    let mut r: Vec<char> = Vec::new();
    let mut i: usize = a;
    while i < b
        invariant
            a <= i <= b <= v.len(),
            r@ == v@.subrange(a as int, i as int),
        decreases b - i,
    {
        r.push(v[i]);
        assert(v@.subrange(a as int, i + 1) == v@.subrange(a as int, i as int).push(v@[i as int]));
        i = i + 1;
    }
    r
}

/// Whether a character is white space (`char::is_whitespace`: the Unicode
/// `White_Space` property).
pub open spec fn is_ws(c: char) -> bool {
    let u = c as u32;
    u == 0x20 || (0x09 <= u && u <= 0x0d) || u == 0x85 || u == 0xa0 || u == 0x1680 || (0x2000
        <= u && u <= 0x200a) || u == 0x2028 || u == 0x2029 || u == 0x202f || u == 0x205f || u
        == 0x3000
}

/// Whether a character is white space.
pub fn is_whitespace(c: char) -> (b: bool)
    ensures
        b == is_ws(c),
{
    let u = c as u32;
    u == 0x20 || (0x09 <= u && u <= 0x0d) || u == 0x85 || u == 0xa0 || u == 0x1680 || (0x2000
        <= u && u <= 0x200a) || u == 0x2028 || u == 0x2029 || u == 0x202f || u == 0x205f || u
        == 0x3000
}

/// The sequence without its leading white space.
pub open spec fn trim_start(s: Seq<char>) -> Seq<char>
    decreases s.len(),
{
    if s.len() > 0 && is_ws(s[0]) {
        trim_start(s.drop_first())
    } else {
        s
    }
}

/// The sequence without its trailing white space.
pub open spec fn trim_end(s: Seq<char>) -> Seq<char>
    decreases s.len(),
{
    if s.len() > 0 && is_ws(s.last()) {
        trim_end(s.drop_last())
    } else {
        s
    }
}

/// The sequence without leading and trailing white space (`str::trim`).
pub open spec fn trim(s: Seq<char>) -> Seq<char> {
    trim_end(trim_start(s))
}

pub(crate) proof fn lemma_trim_start_at(s: Seq<char>, a: int)
    requires
        0 <= a <= s.len(),
        forall|j: int| 0 <= j < a ==> is_ws(#[trigger] s[j]),
        a < s.len() ==> !is_ws(s[a]),
    ensures
        trim_start(s) == s.skip(a),
    decreases a,
{
    if a > 0 {
        let t = s.drop_first();
        assert forall|j: int| 0 <= j < a - 1 implies is_ws(#[trigger] t[j]) by {
            assert(t[j] == s[j + 1]);
        }
        if a < s.len() {
            assert(t[a - 1] == s[a]);
        }
        lemma_trim_start_at(t, a - 1);
        assert(t.skip(a - 1) =~= s.skip(a));
    } else {
        assert(s.skip(0) =~= s);
    }
}

pub(crate) proof fn lemma_trim_end_at(s: Seq<char>, b: int)
    requires
        0 <= b <= s.len(),
        forall|j: int| b <= j < s.len() ==> is_ws(#[trigger] s[j]),
        b > 0 ==> !is_ws(s[b - 1]),
    ensures
        trim_end(s) == s.take(b),
    decreases s.len() - b,
{
    if b < s.len() {
        let t = s.drop_last();
        assert forall|j: int| b <= j < t.len() implies is_ws(#[trigger] t[j]) by {
            assert(t[j] == s[j]);
        }
        if b > 0 {
            assert(t[b - 1] == s[b - 1]);
        }
        assert(is_ws(s[s.len() - 1]));
        lemma_trim_end_at(t, b);
        assert(t.take(b) =~= s.take(b));
    } else {
        assert(s.take(b) =~= s);
    }
}

/// The characters without leading and trailing white space.
pub fn trim_chars(v: &Vec<char>) -> (r: Vec<char>)
    ensures
        r@ == trim(v@),
{
    let n = v.len();
    let mut a: usize = 0;
    while a < n && is_whitespace(v[a])
        invariant
            a <= n == v.len(),
            forall|j: int| 0 <= j < a ==> is_ws(#[trigger] v@[j]),
        decreases n - a,
    {
        a = a + 1;
    }
    proof {
        lemma_trim_start_at(v@, a as int);
    }
    let mut b: usize = n;
    while b > a && is_whitespace(v[b - 1])
        invariant
            a <= b <= n == v.len(),
            forall|j: int| b <= j < n ==> is_ws(#[trigger] v@[j]),
        decreases b,
    {
        b = b - 1;
    }
    proof {
        let t = v@.skip(a as int);
        assert forall|j: int| b - a <= j < t.len() implies is_ws(#[trigger] t[j]) by {
            assert(t[j] == v@[j + a]);
        }
        if b > a {
            assert(t[b - a - 1] == v@[b - 1]);
        }
        lemma_trim_end_at(t, b - a);
        assert(t.take(b - a) =~= v@.subrange(a as int, b as int));
    }
    slice_chars(v, a, b)
}

/// Whether `p` is a prefix of `s`.
pub open spec fn has_prefix(s: Seq<char>, p: Seq<char>) -> bool {
    p.len() <= s.len() && s.take(p.len() as int) == p
}

/// Whether `p` is a prefix of the characters.
pub fn starts_with(v: &Vec<char>, p: &Vec<char>) -> (b: bool)
    ensures
        b == has_prefix(v@, p@),
{
    if p.len() > v.len() {
        return false;
    }
    let mut i: usize = 0;
    while i < p.len()
        invariant
            p.len() <= v.len(),
            i <= p.len(),
            forall|j: int| 0 <= j < i ==> v@[j] == p@[j],
        decreases p.len() - i,
    {
        if v[i] != p[i] {
            assert(v@.take(p.len() as int)[i as int] != p@[i as int]);
            return false;
        }
        i = i + 1;
    }
    assert(v@.take(p.len() as int) =~= p@);
    true
}

/// The characters after the prefix `p`, if `p` is a prefix (`str::strip_prefix`).
pub fn strip_prefix_chars(v: &Vec<char>, p: &str) -> (r: Option<Vec<char>>)
    ensures
        r is Some == has_prefix(v@, p@),
        r matches Some(rest) ==> rest@ == v@.skip(p@.len() as int),
{
    let pv = chars_of(p);
    if starts_with(v, &pv) {
        Some(slice_chars(v, pv.len(), v.len()))
    } else {
        None
    }
}

/// The position of the first character of `s` that `sep` accepts, or the
/// length of `s` when there is none.
pub open spec fn sep_pos(s: Seq<char>, sep: spec_fn(char) -> bool) -> nat
    decreases s.len(),
{
    if s.len() == 0 {
        0
    } else if sep(s[0]) {
        0
    } else {
        1 + sep_pos(s.drop_first(), sep)
    }
}

/// The pieces of `s` between the characters that `sep` accepts
/// (`str::split` with a character predicate): always at least one piece.
pub open spec fn split_by(s: Seq<char>, sep: spec_fn(char) -> bool) -> Seq<Seq<char>>
    decreases s.len(),
{
    let k = sep_pos(s, sep);
    if k >= s.len() {
        seq![s]
    } else {
        seq![s.take(k as int)] + split_by(s.skip(k as int + 1), sep)
    }
}

/// `k` is the first separator position when nothing before it is a
/// separator and it is one (or the end).
pub proof fn lemma_sep_pos_at(s: Seq<char>, sep: spec_fn(char) -> bool, k: int)
    requires
        0 <= k <= s.len(),
        forall|j: int| 0 <= j < k ==> !sep(#[trigger] s[j]),
        k < s.len() ==> sep(s[k]),
    ensures
        sep_pos(s, sep) == k,
    decreases k,
{
    if k > 0 {
        let t = s.drop_first();
        assert forall|j: int| 0 <= j < k - 1 implies !sep(#[trigger] t[j]) by {
            assert(t[j] == s[j + 1]);
        }
        if k < s.len() {
            assert(t[k - 1] == s[k]);
        }
        lemma_sep_pos_at(t, sep, k - 1);
    }
}

/// The views of a sequence of character vectors.
pub open spec fn views(p: Seq<Vec<char>>) -> Seq<Seq<char>> {
    p.map_values(|x: Vec<char>| x@)
}

/// The piece `v[start..i]` ends at a separator: the split of `v[start..]`
/// is that piece followed by the split of `v[i + 1..]`.
proof fn lemma_split_step(v: Seq<char>, sep: spec_fn(char) -> bool, start: int, i: int)
    requires
        0 <= start <= i < v.len(),
        forall|j: int| start <= j < i ==> !sep(#[trigger] v[j]),
        sep(v[i]),
    ensures
        split_by(v.skip(start), sep) == seq![v.subrange(start, i)] + split_by(v.skip(i + 1), sep),
{
    let t = v.skip(start);
    assert forall|j: int| 0 <= j < i - start implies !sep(#[trigger] t[j]) by {
        assert(t[j] == v[j + start]);
    }
    assert(t[i - start] == v[i]);
    lemma_sep_pos_at(t, sep, i - start);
    assert(t.take(i - start) =~= v.subrange(start, i));
    assert(t.skip(i - start + 1) =~= v.skip(i + 1));
}

/// The rest `v[start..]` holds no separator: its split is itself.
proof fn lemma_split_last(v: Seq<char>, sep: spec_fn(char) -> bool, start: int)
    requires
        0 <= start <= v.len(),
        forall|j: int| start <= j < v.len() ==> !sep(#[trigger] v[j]),
    ensures
        split_by(v.skip(start), sep) == seq![v.subrange(start, v.len() as int)],
{
    let t = v.skip(start);
    assert forall|j: int| 0 <= j < t.len() implies !sep(#[trigger] t[j]) by {
        assert(t[j] == v[j + start]);
    }
    lemma_sep_pos_at(t, sep, t.len() as int);
    assert(t =~= v.subrange(start, v.len() as int));
}

/// The pieces of the characters between occurrences of `c` (`str::split`).
pub fn split_on_char(v: &Vec<char>, c: char) -> (pieces: Vec<Vec<char>>)
    ensures
        views(pieces@) == split_by(v@, |x: char| x == c),
{
    let ghost sep = |x: char| x == c;
    let mut pieces: Vec<Vec<char>> = Vec::new();
    let mut start: usize = 0;
    let mut i: usize = 0;
    assert(v@.skip(0) =~= v@);
    while i < v.len()
        invariant
            start <= i <= v.len(),
            sep == (|x: char| x == c),
            forall|j: int| start <= j < i ==> !sep(#[trigger] v@[j]),
            views(pieces@) + split_by(v@.skip(start as int), sep) == split_by(v@, sep),
        decreases v.len() - i,
    {
        if v[i] == c {
            proof {
                lemma_split_step(v@, sep, start as int, i as int);
            }
            let piece = slice_chars(v, start, i);
            let ghost before = pieces@;
            pieces.push(piece);
            proof {
                assert(views(pieces@) =~= views(before).push(piece@));
                assert(views(pieces@) + split_by(v@.skip(i + 1), sep) =~= views(before)
                    + split_by(v@.skip(start as int), sep));
            }
            start = i + 1;
        }
        i = i + 1;
    }
    proof {
        lemma_split_last(v@, sep, start as int);
    }
    let piece = slice_chars(v, start, v.len());
    let ghost before = pieces@;
    pieces.push(piece);
    proof {
        assert(views(pieces@) =~= views(before).push(piece@));
        assert(views(pieces@) =~= views(before) + split_by(v@.skip(start as int), sep));
    }
    pieces
}

/// The pieces of the characters between white space characters.
pub fn split_on_whitespace(v: &Vec<char>) -> (pieces: Vec<Vec<char>>)
    ensures
        views(pieces@) == split_by(v@, |x: char| is_ws(x)),
{
    let ghost sep = |x: char| is_ws(x);
    let mut pieces: Vec<Vec<char>> = Vec::new();
    let mut start: usize = 0;
    let mut i: usize = 0;
    assert(v@.skip(0) =~= v@);
    while i < v.len()
        invariant
            start <= i <= v.len(),
            sep == (|x: char| is_ws(x)),
            forall|j: int| start <= j < i ==> !sep(#[trigger] v@[j]),
            views(pieces@) + split_by(v@.skip(start as int), sep) == split_by(v@, sep),
        decreases v.len() - i,
    {
        if is_whitespace(v[i]) {
            proof {
                lemma_split_step(v@, sep, start as int, i as int);
            }
            let piece = slice_chars(v, start, i);
            let ghost before = pieces@;
            pieces.push(piece);
            proof {
                assert(views(pieces@) =~= views(before).push(piece@));
                assert(views(pieces@) + split_by(v@.skip(i + 1), sep) =~= views(before)
                    + split_by(v@.skip(start as int), sep));
            }
            start = i + 1;
        }
        i = i + 1;
    }
    proof {
        lemma_split_last(v@, sep, start as int);
    }
    let piece = slice_chars(v, start, v.len());
    let ghost before = pieces@;
    pieces.push(piece);
    proof {
        assert(views(pieces@) =~= views(before).push(piece@));
        assert(views(pieces@) =~= views(before) + split_by(v@.skip(start as int), sep));
    }
    pieces
}

/// A line without the carriage return that ended it, if any.
pub open spec fn strip_cr(s: Seq<char>) -> Seq<char> {
    if s.len() > 0 && s.last() == '\r' {
        s.drop_last()
    } else {
        s
    }
}

/// The lines of a text (`str::lines`): the pieces between `\n`, each
/// followed piece without a final `\r`, and without the empty piece after a
/// final `\n`.
pub open spec fn lines(s: Seq<char>) -> Seq<Seq<char>> {
    let p = split_by(s, |x: char| x == '\n');
    let body = p.take(p.len() - 1).map_values(|x: Seq<char>| strip_cr(x));
    if p.last().len() == 0 {
        body
    } else {
        body.push(p.last())
    }
}

proof fn lemma_split_nonempty(s: Seq<char>, sep: spec_fn(char) -> bool)
    ensures
        split_by(s, sep).len() >= 1,
    decreases s.len(),
{
    let k = sep_pos(s, sep);
    if k < s.len() {
        lemma_split_nonempty(s.skip(k as int + 1), sep);
    }
}

/// The lines of the characters.
pub fn lines_of(v: &Vec<char>) -> (ls: Vec<Vec<char>>)
    ensures
        views(ls@) == lines(v@),
{
    let pieces = split_on_char(v, '\n');
    proof {
        lemma_split_nonempty(v@, |x: char| x == '\n');
    }
    let ghost p = views(pieces@);
    let n = pieces.len();
    let mut ls: Vec<Vec<char>> = Vec::new();
    let mut k: usize = 0;
    while k + 1 < n
        invariant
            n == pieces.len() >= 1,
            p == views(pieces@),
            k + 1 <= n,
            views(ls@) == p.take(k as int).map_values(|x: Seq<char>| strip_cr(x)),
        decreases n - k,
    {
        let piece = &pieces[k];
        let line = if piece.len() > 0 && piece[piece.len() - 1] == '\r' {
            slice_chars(piece, 0, piece.len() - 1)
        } else {
            slice_chars(piece, 0, piece.len())
        };
        proof {
            assert(p[k as int] == piece@);
            assert(line@ =~= strip_cr(piece@));
        }
        let ghost before = ls@;
        ls.push(line);
        proof {
            assert(views(ls@) =~= views(before).push(line@));
            assert(p.take(k + 1).map_values(|x: Seq<char>| strip_cr(x)) =~= p.take(
                k as int,
            ).map_values(|x: Seq<char>| strip_cr(x)).push(strip_cr(p[k as int])));
        }
        k = k + 1;
    }
    let last = &pieces[n - 1];
    proof {
        assert(p.last() == last@);
    }
    if last.len() > 0 {
        let ghost before = ls@;
        let l = slice_chars(last, 0, last.len());
        assert(l@ =~= last@);
        ls.push(l);
        proof {
            assert(views(ls@) =~= views(before).push(last@));
        }
    }
    ls
}

/// The first separator position: nothing before it is a separator, and it
/// is one unless it is the end.
pub proof fn lemma_sep_pos_facts(s: Seq<char>, sep: spec_fn(char) -> bool)
    ensures
        sep_pos(s, sep) <= s.len(),
        forall|j: int| 0 <= j < sep_pos(s, sep) ==> !sep(#[trigger] s[j]),
        sep_pos(s, sep) < s.len() ==> sep(s[sep_pos(s, sep) as int]),
    decreases s.len(),
{
    if s.len() > 0 && !sep(s[0]) {
        let t = s.drop_first();
        lemma_sep_pos_facts(t, sep);
        assert forall|j: int| 0 <= j < sep_pos(s, sep) implies !sep(#[trigger] s[j]) by {
            if j > 0 {
                assert(s[j] == t[j - 1]);
            }
        }
    }
}

/// Splitting at a separator between two texts splits each of them.
pub proof fn lemma_split_concat(x: Seq<char>, c: char, y: Seq<char>, sep: spec_fn(char) -> bool)
    requires
        sep(c),
    ensures
        split_by(x + seq![c] + y, sep) == split_by(x, sep) + split_by(y, sep),
    decreases x.len(),
{
    let s = x + seq![c] + y;
    lemma_sep_pos_facts(x, sep);
    let k = sep_pos(x, sep);
    if k < x.len() {
        assert forall|j: int| 0 <= j < k implies !sep(#[trigger] s[j]) by {
            assert(s[j] == x[j]);
        }
        lemma_sep_pos_at(s, sep, k as int);
        assert(s.take(k as int) =~= x.take(k as int));
        assert(s.skip(k as int + 1) =~= x.skip(k as int + 1) + seq![c] + y);
        lemma_split_concat(x.skip(k as int + 1), c, y, sep);
    } else {
        assert forall|j: int| 0 <= j < x.len() implies !sep(#[trigger] s[j]) by {
            assert(s[j] == x[j]);
        }
        lemma_sep_pos_at(s, sep, x.len() as int);
        assert(s.take(x.len() as int) =~= x);
        assert(s.skip(x.len() as int + 1) =~= y);
    }
}

/// Joining lines that hold no line break or carriage return, the last one
/// not empty, and reading the lines back gives them again.
pub proof fn lemma_lines_of_join(rows: Seq<Seq<char>>)
    requires
        forall|i: int, j: int|
            0 <= i < rows.len() && 0 <= j < rows[i].len() ==> #[trigger] rows[i][j] != '\n'
                && rows[i][j] != '\r',
        rows.len() > 0 ==> rows.last().len() > 0,
    ensures
        lines(join_lines(rows)) == rows,
{
    let sep = |x: char| x == '\n';
    if rows.len() == 0 {
        assert(split_by(seq![], sep) == seq![Seq::<char>::empty()]);
        assert(lines(join_lines(rows)) =~= rows);
    } else {
        lemma_split_join(rows);
        let p = split_by(join_lines(rows), sep);
        assert(p == rows);
        assert(p.take(p.len() - 1).map_values(|x: Seq<char>| strip_cr(x)) =~= rows.drop_last()) by {
            assert forall|i: int| 0 <= i < rows.len() - 1 implies strip_cr(rows[i]) == rows[i] by {
                if rows[i].len() > 0 {
                    assert(rows[i][rows[i].len() - 1] != '\r');
                }
            }
        }
        assert(rows.drop_last().push(rows.last()) =~= rows);
    }
}

/// Splitting joined lines that hold no line break gives the lines.
proof fn lemma_split_join(rows: Seq<Seq<char>>)
    requires
        rows.len() > 0,
        forall|i: int, j: int|
            0 <= i < rows.len() && 0 <= j < rows[i].len() ==> #[trigger] rows[i][j] != '\n',
    ensures
        split_by(join_lines(rows), |x: char| x == '\n') == rows,
    decreases rows.len(),
{
    let sep = |x: char| x == '\n';
    let last = rows.last();
    if rows.len() == 1 {
        assert forall|j: int| 0 <= j < last.len() implies !sep(#[trigger] last[j]) by {
            assert(rows[0][j] != '\n');
        }
        lemma_sep_pos_at(last, sep, last.len() as int);
        assert(split_by(last, sep) =~= seq![last]);
        assert(rows =~= seq![last]);
    } else {
        let front = rows.drop_last();
        assert forall|i: int, j: int| 0 <= i < front.len() && 0 <= j < front[i].len() implies #[trigger] front[i][j] != '\n' by {
            assert(front[i] == rows[i]);
        }
        lemma_split_join(front);
        reveal_strlit("\n");
        assert(join_lines(rows) == join_lines(front) + seq!['\n'] + last);
        lemma_split_concat(join_lines(front), '\n', last, sep);
        assert forall|j: int| 0 <= j < last.len() implies !sep(#[trigger] last[j]) by {
            assert(rows[rows.len() - 1][j] != '\n');
        }
        lemma_sep_pos_at(last, sep, last.len() as int);
        assert(split_by(last, sep) =~= seq![last]);
        assert(front + seq![last] =~= rows);
    }
}

/// Whether `p` occurs in `s` at position `i`.
pub open spec fn occurs_at(s: Seq<char>, p: Seq<char>, i: int) -> bool {
    0 <= i && i + p.len() <= s.len() && s.subrange(i, i + p.len()) == p
}

/// Whether `p` occurs in `s`.
pub open spec fn contains_seq(s: Seq<char>, p: Seq<char>) -> bool {
    exists|i: int| occurs_at(s, p, i)
}

/// The first position at which `p` occurs in the characters, if any.
pub fn find_seq(v: &Vec<char>, p: &Vec<char>) -> (r: Option<usize>)
    ensures
        match r {
            Some(i) => occurs_at(v@, p@, i as int) && forall|j: int|
                0 <= j < i ==> !occurs_at(v@, p@, j),
            None => forall|j: int| !occurs_at(v@, p@, j),
        },
{
    if p.len() > v.len() {
        return None;
    }
    let last = v.len() - p.len();
    let mut i: usize = 0;
    while i <= last
        invariant
            last == v.len() - p.len(),
            p.len() <= v.len(),
            forall|j: int| 0 <= j < i ==> !occurs_at(v@, p@, j),
        decreases last + 1 - i,
    {
        let mut k: usize = 0;
        let mut same = true;
        while k < p.len()
            invariant
                i <= last,
                last == v.len() - p.len(),
                k <= p.len(),
                same == forall|m: int| 0 <= m < k ==> v@[i + m] == p@[m],
            decreases p.len() - k,
        {
            if v[i + k] != p[k] {
                same = false;
            }
            k = k + 1;
        }
        if same {
            assert(v@.subrange(i as int, i + p.len()) =~= p@);
            return Some(i);
        }
        proof {
            let m = choose|m: int| 0 <= m < p.len() && v@[i + m] != p@[m];
            assert(v@.subrange(i as int, i + p.len())[m] != p@[m]);
        }
        i = i + 1;
    }
    None
}

/// Whether the string slice `p` occurs in the characters.
pub fn contains_str(v: &Vec<char>, p: &str) -> (b: bool)
    ensures
        b == contains_seq(v@, p@),
{
    let pv = chars_of(p);
    match find_seq(v, &pv) {
        Some(_) => true,
        None => false,
    }
}

/// The lines joined with `\n` between them.
pub open spec fn join_lines(parts: Seq<Seq<char>>) -> Seq<char>
    decreases parts.len(),
{
    if parts.len() == 0 {
        seq![]
    } else if parts.len() == 1 {
        parts[0]
    } else {
        join_lines(parts.drop_last()) + "\n"@ + parts.last()
    }
}

/// The character of a decimal digit.
pub open spec fn digit_char(d: nat) -> char {
    if d == 0 {
        '0'
    } else if d == 1 {
        '1'
    } else if d == 2 {
        '2'
    } else if d == 3 {
        '3'
    } else if d == 4 {
        '4'
    } else if d == 5 {
        '5'
    } else if d == 6 {
        '6'
    } else if d == 7 {
        '7'
    } else if d == 8 {
        '8'
    } else {
        '9'
    }
}

/// The decimal digits of a number, most significant first, without leading zeros.
pub open spec fn decimal(n: nat) -> Seq<char>
    decreases n,
{
    if n < 10 {
        seq![digit_char(n)]
    } else {
        decimal(n / 10).push(digit_char(n % 10))
    }
}

fn digit_of(d: u64) -> (c: char)
    requires
        d < 10,
    ensures
        c == digit_char(d as nat),
{
    if d == 0 {
        '0'
    } else if d == 1 {
        '1'
    } else if d == 2 {
        '2'
    } else if d == 3 {
        '3'
    } else if d == 4 {
        '4'
    } else if d == 5 {
        '5'
    } else if d == 6 {
        '6'
    } else if d == 7 {
        '7'
    } else if d == 8 {
        '8'
    } else {
        '9'
    }
}

/// The decimal digits of a number.
pub fn decimal_chars(n: u64) -> (v: Vec<char>)
    ensures
        v@ == decimal(n as nat),
    decreases n,
{
    if n < 10 {
        let mut v: Vec<char> = Vec::new();
        v.push(digit_of(n));
        assert(v@ =~= seq![digit_char(n as nat)]);
        v
    } else {
        let mut v = decimal_chars(n / 10);
        v.push(digit_of(n % 10));
        v
    }
}

/// Appends the decimal digits of a number to a string.
pub fn push_decimal(s: &mut String, n: u64)
    ensures
        final(s)@ == old(s)@ + decimal(n as nat),
{
    let v = decimal_chars(n);
    let ghost start = s@;
    let mut i: usize = 0;
    while i < v.len()
        invariant
            i <= v.len(),
            s@ == start + v@.take(i as int),
        decreases v.len() - i,
    {
        push_char(s, v[i]);
        assert(v@.take(i + 1) == v@.take(i as int).push(v@[i as int]));
        i = i + 1;
    }
    assert(v@.take(v.len() as int) == v@);
}

/// Whether a character is an ASCII decimal digit.
pub open spec fn is_digit(c: char) -> bool {
    '0' <= c && c <= '9'
}

/// The value of an ASCII decimal digit.
pub open spec fn digit_value(c: char) -> nat {
    (c as u32 - '0' as u32) as nat
}

/// The value of a run of decimal digits, most significant first.
pub open spec fn digits_value(d: Seq<char>) -> nat
    decreases d.len(),
{
    if d.len() == 0 {
        0
    } else {
        digits_value(d.drop_last()) * 10 + digit_value(d.last())
    }
}

/// The digits of an unsigned number: the text after an optional `+`.
pub open spec fn unsigned_digits(s: Seq<char>) -> Seq<char> {
    if s.len() > 0 && s[0] == '+' {
        s.drop_first()
    } else {
        s
    }
}

/// Whether every character is a decimal digit.
pub open spec fn all_digits(d: Seq<char>) -> bool {
    forall|i: int| 0 <= i < d.len() ==> is_digit(#[trigger] d[i])
}

/// The unsigned number a text spells (`str::parse::<usize>`): an optional
/// `+`, then one or more decimal digits, with a value that fits in `usize`.
pub open spec fn parse_usize_spec(s: Seq<char>) -> Option<nat> {
    let d = unsigned_digits(s);
    if d.len() > 0 && all_digits(d) && digits_value(d) <= usize::MAX {
        Some(digits_value(d))
    } else {
        None
    }
}

/// A longer run of digits is worth at least as much as its prefix.
proof fn lemma_digits_prefix(d: Seq<char>, k: int)
    requires
        0 <= k <= d.len(),
    ensures
        digits_value(d.take(k)) <= digits_value(d),
    decreases d.len() - k,
{
    if k < d.len() {
        lemma_digits_prefix(d, k + 1);
        assert(d.take(k + 1).drop_last() =~= d.take(k));
    } else {
        assert(d.take(k) =~= d);
    }
}

/// The unsigned number the characters spell, if they spell one that fits.
pub fn parse_usize(v: &Vec<char>) -> (r: Option<usize>)
    ensures
        match r {
            Some(n) => parse_usize_spec(v@) == Some(n as nat),
            None => parse_usize_spec(v@) is None,
        },
{
    let start: usize = if v.len() > 0 && v[0] == '+' {
        1
    } else {
        0
    };
    let ghost d = unsigned_digits(v@);
    assert(d =~= v@.skip(start as int));
    if start >= v.len() {
        return None;
    }
    let mut acc: usize = 0;
    let mut i: usize = start;
    while i < v.len()
        invariant
            start <= i <= v.len(),
            d == v@.skip(start as int),
            d == unsigned_digits(v@),
            d.len() > 0,
            forall|j: int| 0 <= j < i - start ==> is_digit(#[trigger] d[j]),
            acc == digits_value(d.take(i - start)),
        decreases v.len() - i,
    {
        let c = v[i];
        assert(d[i - start] == c);
        if !('0' <= c && c <= '9') {
            assert(!is_digit(d[i - start]));
            return None;
        }
        let dv = (c as u32 - '0' as u32) as usize;
        proof {
            let pre = d.take(i - start + 1);
            assert(pre.drop_last() =~= d.take(i - start));
            assert(pre.last() == c);
            assert(digits_value(pre) == acc * 10 + dv);
            lemma_digits_prefix(d, i - start + 1);
        }
        match acc.checked_mul(10) {
            Some(m) => match m.checked_add(dv) {
                Some(n) => {
                    acc = n;
                },
                None => {
                    return None;
                },
            },
            None => {
                return None;
            },
        }
        i = i + 1;
    }
    assert(d.take(d.len() as int) =~= d);
    Some(acc)
}

/// The lowercase form of a text, as `str::to_lowercase` maps it.
pub uninterp spec fn spec_lowercase(s: Seq<char>) -> Seq<char>;

/// Calls `str::to_lowercase`, which maps each character to its Unicode
/// lowercase form. Its result is a function of the text alone, and is named
/// `spec_lowercase` here rather than stated.
#[verifier::external_body]
pub(crate) fn to_lowercase(s: &str) -> (r: String)
    ensures
        r@ == spec_lowercase(s@),
{
    s.to_lowercase()
}

} // verus!
