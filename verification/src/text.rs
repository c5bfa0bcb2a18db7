use vstd::prelude::*;

verus! {

// ---------------------------------------------------------------------------
// Character classes
// ---------------------------------------------------------------------------

/// `char::is_whitespace`: the Unicode `White_Space` property.
pub open spec fn is_whitespace(c: char) -> bool {
    ||| c == ' '
    ||| ('\t' <= c && c <= '\r')
    ||| c == '\u{85}'
    ||| c == '\u{A0}'
    ||| c == '\u{1680}'
    ||| ('\u{2000}' <= c && c <= '\u{200A}')
    ||| c == '\u{2028}'
    ||| c == '\u{2029}'
    ||| c == '\u{202F}'
    ||| c == '\u{205F}'
    ||| c == '\u{3000}'
}

/// `char::is_ascii_digit`.
pub open spec fn is_digit(c: char) -> bool {
    '0' <= c && c <= '9'
}

/// Whether `c` is whitespace (see `is_whitespace`).
pub fn whitespace(c: char) -> (r: bool)
    ensures
        r == is_whitespace(c),
{
    c == ' ' || ('\t' <= c && c <= '\r') || c == '\u{85}' || c == '\u{A0}' || c == '\u{1680}'
        || ('\u{2000}' <= c && c <= '\u{200A}') || c == '\u{2028}' || c == '\u{2029}' || c
        == '\u{202F}' || c == '\u{205F}' || c == '\u{3000}'
}

// ---------------------------------------------------------------------------
// Sequences of characters
// ---------------------------------------------------------------------------

/// `pat` occurs in `s` at position `i`.
pub open spec fn occurs_at(s: Seq<char>, pat: Seq<char>, i: int) -> bool {
    0 <= i && i + pat.len() <= s.len() && s.subrange(i, i + pat.len()) == pat
}

/// `str::contains` with a string pattern.
pub open spec fn contains(s: Seq<char>, pat: Seq<char>) -> bool {
    exists|i: int| occurs_at(s, pat, i)
}

/// `str::starts_with` with a string pattern.
pub open spec fn starts_with(s: Seq<char>, pat: Seq<char>) -> bool {
    pat.len() <= s.len() && s.take(pat.len() as int) == pat
}

/// `str::ends_with` with a string pattern.
pub open spec fn ends_with(s: Seq<char>, pat: Seq<char>) -> bool {
    pat.len() <= s.len() && s.skip(s.len() - pat.len()) == pat
}

/// `str::trim_start`.
pub open spec fn trim_start(s: Seq<char>) -> Seq<char>
    decreases s.len(),
{
    if s.len() > 0 && is_whitespace(s[0]) {
        trim_start(s.drop_first())
    } else {
        s
    }
}

/// `str::trim_end`.
pub open spec fn trim_end(s: Seq<char>) -> Seq<char>
    decreases s.len(),
{
    if s.len() > 0 && is_whitespace(s.last()) {
        trim_end(s.drop_last())
    } else {
        s
    }
}

/// `str::trim`: whitespace removed at both ends.
pub open spec fn trim(s: Seq<char>) -> Seq<char> {
    trim_end(trim_start(s))
}

/// Removes one trailing carriage return, if any.
pub open spec fn strip_cr(l: Seq<char>) -> Seq<char> {
    if l.len() > 0 && l.last() == '\r' {
        l.drop_last()
    } else {
        l
    }
}

/// `str::lines`, scanning `rest` with `cur` as the line read so far: a line ends
/// at `\n` (an `\r` before it is dropped); a final line without `\n` is kept
/// as is when it is not empty.
pub open spec fn lines_from(cur: Seq<char>, rest: Seq<char>) -> Seq<Seq<char>>
    decreases rest.len(),
{
    if rest.len() == 0 {
        if cur.len() == 0 {
            seq![]
        } else {
            seq![cur]
        }
    } else if rest[0] == '\n' {
        seq![strip_cr(cur)] + lines_from(seq![], rest.drop_first())
    } else {
        lines_from(cur.push(rest[0]), rest.drop_first())
    }
}

/// `str::lines`.
pub open spec fn lines(s: Seq<char>) -> Seq<Seq<char>> {
    lines_from(seq![], s)
}

/// `str::split` with a non-empty string pattern, scanning `rest` with `cur` as
/// the piece read so far; matches are taken leftmost first and do not overlap.
pub open spec fn split_from(cur: Seq<char>, rest: Seq<char>, pat: Seq<char>) -> Seq<Seq<char>>
    recommends
        pat.len() > 0,
    decreases rest.len(),
{
    if pat.len() > 0 && starts_with(rest, pat) {
        seq![cur] + split_from(seq![], rest.skip(pat.len() as int), pat)
    } else if rest.len() == 0 {
        seq![cur]
    } else {
        split_from(cur.push(rest[0]), rest.drop_first(), pat)
    }
}

/// `str::split` with a non-empty string pattern.
pub open spec fn split(s: Seq<char>, pat: Seq<char>) -> Seq<Seq<char>> {
    split_from(seq![], s, pat)
}

/// `str::split_once` with a non-empty string pattern, scanning `rest` with `cur`
/// as the part read so far.
pub open spec fn split_once_from(cur: Seq<char>, rest: Seq<char>, pat: Seq<char>) -> Option<
    (Seq<char>, Seq<char>),
>
    decreases rest.len(),
{
    if starts_with(rest, pat) {
        Some((cur, rest.skip(pat.len() as int)))
    } else if rest.len() == 0 {
        None
    } else {
        split_once_from(cur.push(rest[0]), rest.drop_first(), pat)
    }
}

/// `str::split_once`: the parts before and after the first occurrence of `pat`.
pub open spec fn split_once(s: Seq<char>, pat: Seq<char>) -> Option<(Seq<char>, Seq<char>)> {
    split_once_from(seq![], s, pat)
}

/// `[&str]::join`.
pub open spec fn join(parts: Seq<Seq<char>>, sep: Seq<char>) -> Seq<char>
    decreases parts.len(),
{
    if parts.len() == 0 {
        seq![]
    } else if parts.len() == 1 {
        parts[0]
    } else {
        join(parts.drop_last(), sep) + sep + parts.last()
    }
}

/// The character sequences held by `v`.
pub open spec fn char_lines(v: &Vec<Vec<char>>) -> Seq<Seq<char>> {
    v@.map_values(|l: Vec<char>| l@)
}

// ---------------------------------------------------------------------------
// Conversions between `str`, `String` and `Vec<char>`
// ---------------------------------------------------------------------------

/// The characters of `s`, in order.
pub fn chars_of(s: &str) -> (out: Vec<char>)
    ensures
        out@ == s@,
{
    let mut out: Vec<char> = Vec::new();
    for c in it: s.chars()
        invariant
            out@ == it.seq().take(it.index()),
    {
        out.push(c);
    }
    out
}

/// `String::push`: appends the character `c` to `s`.
#[verifier::external_body]
fn push_char(s: &mut String, c: char)
    ensures
        final(s)@ == old(s)@.push(c),
{
    s.push(c);
}

/// The string made of the characters of `cs`.
pub fn string_of(cs: &[char]) -> (s: String)
    ensures
        s@ == cs@,
{
    let mut s = String::new();
    for i in 0..cs.len()
        invariant
            s@ == cs@.take(i as int),
    {
        push_char(&mut s, cs[i]);
        assert(cs@.take(i + 1) == cs@.take(i as int).push(cs@[i as int]));
    }
    assert(cs@.take(cs@.len() as int) == cs@);
    s
}

/// Appends the characters of `s` to `out`.
pub fn push_str(out: &mut Vec<char>, s: &str)
    ensures
        final(out)@ == old(out)@ + s@,
{
    let cs = chars_of(s);
    push_all(out, &cs);
}

/// Appends the characters of `cs` to `out`.
pub fn push_all(out: &mut Vec<char>, cs: &[char])
    ensures
        final(out)@ == old(out)@ + cs@,
{
    let ghost start = out@;
    for i in 0..cs.len()
        invariant
            out@ == start + cs@.take(i as int),
    {
        out.push(cs[i]);
        assert(cs@.take(i + 1) == cs@.take(i as int).push(cs@[i as int]));
    }
    assert(cs@.take(cs@.len() as int) == cs@);
}

/// The characters `cs[from..to]`.
pub fn slice_chars(cs: &[char], from: usize, to: usize) -> (out: Vec<char>)
    requires
        from <= to <= cs.len(),
    ensures
        out@ == cs@.subrange(from as int, to as int),
{
    let mut out: Vec<char> = Vec::new();
    let mut i = from;
    while i < to
        invariant
            from <= i <= to <= cs.len(),
            out@ == cs@.subrange(from as int, i as int),
        decreases to - i,
    {
        out.push(cs[i]);
        i += 1;
        assert(out@ == cs@.subrange(from as int, i as int));
    }
    out
}

// ---------------------------------------------------------------------------
// Searching
// ---------------------------------------------------------------------------

/// Whether `pat` occurs in `s` at position `i`.
pub fn occurs_at_exec(s: &[char], pat: &[char], i: usize) -> (r: bool)
    ensures
        r == occurs_at(s@, pat@, i as int),
{
    if i > s.len() || pat.len() > s.len() - i {
        return false;
    }
    let mut j: usize = 0;
    while j < pat.len()
        invariant
            i + pat.len() <= s.len(),
            j <= pat.len(),
            forall|k: int| 0 <= k < j ==> s@[i + k] == pat@[k],
        decreases pat.len() - j,
    {
        if s[i + j] != pat[j] {
            proof {
                assert(s@.subrange(i as int, i + pat.len())[j as int] != pat@[j as int]);
            }
            return false;
        }
        j += 1;
    }
    assert(s@.subrange(i as int, i + pat.len()) =~= pat@);
    true
}

/// `str::contains` on character sequences.
pub fn contains_chars(s: &[char], pat: &[char]) -> (r: bool)
    ensures
        r == contains(s@, pat@),
{
    if pat.len() > s.len() {
        return false;
    }
    let last = s.len() - pat.len();
    let mut i: usize = 0;
    while i < last
        invariant
            last == s.len() - pat.len(),
            pat.len() <= s.len(),
            i <= last,
            forall|j: int| 0 <= j < i ==> !occurs_at(s@, pat@, j),
        decreases last - i,
    {
        if occurs_at_exec(s, pat, i) {
            return true;
        }
        i += 1;
    }
    if occurs_at_exec(s, pat, last) {
        return true;
    }
    assert forall|j: int| !occurs_at(s@, pat@, j) by {
        if 0 <= j && j + pat@.len() <= s@.len() {
            assert(j <= last);
        }
    }
    false
}

/// `str::contains`.
pub fn str_contains(s: &str, pat: &str) -> (r: bool)
    ensures
        r == contains(s@, pat@),
{
    let cs = chars_of(s);
    let ps = chars_of(pat);
    contains_chars(&cs, &ps)
}

/// `str::starts_with`.
pub fn str_starts_with(s: &str, pat: &str) -> (r: bool)
    ensures
        r == starts_with(s@, pat@),
{
    let cs = chars_of(s);
    let ps = chars_of(pat);
    let r = occurs_at_exec(&cs, &ps, 0);
    assert(r == starts_with(s@, pat@)) by {
        if pat@.len() <= s@.len() {
            assert(s@.subrange(0, pat@.len() as int) == s@.take(pat@.len() as int));
        }
    }
    r
}

/// `str::ends_with` on character sequences.
pub fn ends_with_chars(s: &[char], pat: &[char]) -> (r: bool)
    ensures
        r == ends_with(s@, pat@),
{
    if pat.len() > s.len() {
        return false;
    }
    let r = occurs_at_exec(s, pat, s.len() - pat.len());
    assert(r == ends_with(s@, pat@)) by {
        assert(s@.subrange(s@.len() - pat@.len(), s@.len() as int) == s@.skip(
            s@.len() - pat@.len(),
        ));
    }
    r
}

// ---------------------------------------------------------------------------
// Trimming
// ---------------------------------------------------------------------------

proof fn lemma_trim_start_skip(s: Seq<char>, i: int)
    requires
        0 <= i <= s.len(),
        forall|k: int| 0 <= k < i ==> is_whitespace(s[k]),
    ensures
        trim_start(s) == trim_start(s.skip(i)),
    decreases i,
{
    if i > 0 {
        lemma_trim_start_skip(s.drop_first(), i - 1);
        assert(s.drop_first().skip(i - 1) == s.skip(i));
    } else {
        assert(s.skip(0) == s);
    }
}

proof fn lemma_trim_end_take(s: Seq<char>, j: int)
    requires
        0 <= j <= s.len(),
        forall|k: int| j <= k < s.len() ==> is_whitespace(s[k]),
    ensures
        trim_end(s) == trim_end(s.take(j)),
    decreases s.len() - j,
{
    if j < s.len() {
        lemma_trim_end_take(s.drop_last(), j);
        assert(s.drop_last().take(j) == s.take(j));
    } else {
        assert(s.take(j) == s);
    }
}

/// The bounds `(a, b)` of `trim(cs)` within `cs`.
pub fn trim_bounds(cs: &[char]) -> (r: (usize, usize))
    ensures
        r.0 <= r.1 <= cs.len(),
        cs@.subrange(r.0 as int, r.1 as int) == trim(cs@),
{
    let mut a: usize = 0;
    while a < cs.len() && whitespace(cs[a])
        invariant
            a <= cs.len(),
            forall|k: int| 0 <= k < a ==> is_whitespace(cs@[k]),
        decreases cs.len() - a,
    {
        a += 1;
    }
    proof {
        lemma_trim_start_skip(cs@, a as int);
    }
    let ghost t = cs@.skip(a as int);
    assert(trim_start(t) == t);
    let mut b: usize = cs.len();
    while b > a && whitespace(cs[b - 1])
        invariant
            a <= b <= cs.len(),
            forall|k: int| b <= k < cs.len() ==> is_whitespace(cs@[k]),
        decreases b,
    {
        b -= 1;
    }
    proof {
        let tb = (b - a) as int;
        assert forall|k: int| tb <= k < t.len() implies is_whitespace(t[k]) by {
            assert(t[k] == cs@[a + k]);
        }
        lemma_trim_end_take(t, tb);
        let u = t.take(tb);
        assert(u == cs@.subrange(a as int, b as int));
        if u.len() > 0 {
            assert(u.last() == cs@[b - 1]);
        }
        assert(trim_end(u) == u);
    }
    (a, b)
}

/// `str::trim` on character sequences.
pub fn trim_chars(cs: &[char]) -> (out: Vec<char>)
    ensures
        out@ == trim(cs@),
{
    let (a, b) = trim_bounds(cs);
    slice_chars(cs, a, b)
}

// ---------------------------------------------------------------------------
// Lines, splitting and joining
// ---------------------------------------------------------------------------

/// `str::lines` on character sequences.
pub fn lines_of(s: &[char]) -> (out: Vec<Vec<char>>)
    ensures
        char_lines(&out) == lines(s@),
{
    let mut out: Vec<Vec<char>> = Vec::new();
    let mut start: usize = 0;
    let mut i: usize = 0;
    assert(s@.skip(0) == s@);
    assert(s@.subrange(0, 0) == Seq::<char>::empty());
    while i < s.len()
        invariant
            start <= i <= s.len(),
            lines(s@) == char_lines(&out) + lines_from(
                s@.subrange(start as int, i as int),
                s@.skip(i as int),
            ),
        decreases s.len() - i,
    {
        let ghost cur = s@.subrange(start as int, i as int);
        let ghost rest = s@.skip(i as int);
        assert(rest.drop_first() == s@.skip(i + 1));
        if s[i] == '\n' {
            let mut line = slice_chars(s, start, i);
            if line.len() > 0 && line[line.len() - 1] == '\r' {
                line.pop();
            }
            assert(line@ == strip_cr(cur));
            let ghost before = char_lines(&out);
            out.push(line);
            assert(char_lines(&out) =~= before.push(strip_cr(cur)));
            i += 1;
            start = i;
            assert(s@.subrange(start as int, i as int) == Seq::<char>::empty());
        } else {
            assert(cur.push(rest[0]) == s@.subrange(start as int, i + 1));
            i += 1;
        }
    }
    if start < s.len() {
        let line = slice_chars(s, start, s.len());
        let ghost before = char_lines(&out);
        out.push(line);
        assert(char_lines(&out) =~= before.push(line@));
    }
    out
}

/// `str::split` on character sequences, with a non-empty pattern.
pub fn split_chars(s: &[char], pat: &[char]) -> (out: Vec<Vec<char>>)
    requires
        pat.len() > 0,
    ensures
        char_lines(&out) == split(s@, pat@),
{
    let mut out: Vec<Vec<char>> = Vec::new();
    let mut start: usize = 0;
    let mut i: usize = 0;
    assert(s@.skip(0) == s@);
    assert(s@.subrange(0, 0) == Seq::<char>::empty());
    while i < s.len()
        invariant
            pat.len() > 0,
            start <= i <= s.len(),
            split(s@, pat@) == char_lines(&out) + split_from(
                s@.subrange(start as int, i as int),
                s@.skip(i as int),
                pat@,
            ),
        decreases s.len() - i,
    {
        let ghost cur = s@.subrange(start as int, i as int);
        let ghost rest = s@.skip(i as int);
        if occurs_at_exec(s, pat, i) {
            assert(rest.take(pat@.len() as int) == s@.subrange(i as int, i + pat@.len()));
            assert(rest.skip(pat@.len() as int) == s@.skip(i + pat@.len()));
            let piece = slice_chars(s, start, i);
            let ghost before = char_lines(&out);
            out.push(piece);
            assert(char_lines(&out) =~= before.push(cur));
            i += pat.len();
            start = i;
            assert(s@.subrange(start as int, i as int) == Seq::<char>::empty());
        } else {
            assert(!starts_with(rest, pat@)) by {
                if starts_with(rest, pat@) {
                    assert(rest.take(pat@.len() as int) == s@.subrange(
                        i as int,
                        i + pat@.len(),
                    ));
                }
            }
            assert(rest.drop_first() == s@.skip(i + 1));
            assert(cur.push(rest[0]) == s@.subrange(start as int, i + 1));
            i += 1;
        }
    }
    let ghost cur = s@.subrange(start as int, i as int);
    assert(s@.skip(i as int) == Seq::<char>::empty());
    let piece = slice_chars(s, start, s.len());
    let ghost before = char_lines(&out);
    out.push(piece);
    assert(char_lines(&out) =~= before.push(cur));
    out
}

/// `str::split_once` on character sequences: the end of the part before the
/// first occurrence of `pat`, if any.
pub fn split_once_at(s: &[char], pat: &[char]) -> (r: Option<usize>)
    ensures
        match r {
            Some(i) => i + pat.len() <= s.len() && split_once(s@, pat@) == Some(
                (s@.take(i as int), s@.skip(i + pat.len())),
            ),
            None => split_once(s@, pat@) is None,
        },
{
    let mut i: usize = 0;
    assert(s@.skip(0) == s@);
    assert(s@.take(0) == Seq::<char>::empty());
    while i < s.len()
        invariant
            i <= s.len(),
            split_once(s@, pat@) == split_once_from(s@.take(i as int), s@.skip(i as int), pat@),
        decreases s.len() - i,
    {
        let ghost rest = s@.skip(i as int);
        if occurs_at_exec(s, pat, i) {
            assert(rest.take(pat@.len() as int) == s@.subrange(i as int, i + pat@.len()));
            assert(rest.skip(pat@.len() as int) == s@.skip(i + pat@.len()));
            return Some(i);
        }
        assert(!starts_with(rest, pat@)) by {
            if starts_with(rest, pat@) {
                assert(rest.take(pat@.len() as int) == s@.subrange(i as int, i + pat@.len()));
            }
        }
        assert(rest.drop_first() == s@.skip(i + 1));
        assert(s@.take(i as int).push(rest[0]) == s@.take(i + 1));
        i += 1;
    }
    let ghost rest = s@.skip(i as int);
    assert(rest.len() == 0);
    if occurs_at_exec(s, pat, i) {
        assert(rest.take(pat@.len() as int) == s@.subrange(i as int, i + pat@.len()));
        assert(rest.skip(pat@.len() as int) == s@.skip(i + pat@.len()));
        return Some(i);
    }
    assert(!starts_with(rest, pat@)) by {
        if starts_with(rest, pat@) {
            assert(rest.take(pat@.len() as int) == s@.subrange(i as int, i + pat@.len()));
        }
    }
    None
}

/// Appends `join(parts, sep)` to `out`.
pub fn push_joined(out: &mut Vec<char>, parts: &Vec<Vec<char>>, sep: &[char])
    ensures
        final(out)@ == old(out)@ + join(char_lines(parts), sep@),
{
    let ghost start = out@;
    let ghost ps = char_lines(parts);
    for i in 0..parts.len()
        invariant
            ps == char_lines(parts),
            out@ == start + join(ps.take(i as int), sep@),
    {
        let ghost prev = ps.take(i as int);
        assert(ps.take(i + 1).drop_last() == prev);
        assert(ps.take(i + 1).last() == parts[i as int]@);
        if i > 0 {
            push_all(out, sep);
        } else {
            assert(prev.len() == 0);
        }
        push_all(out, &parts[i]);
    }
    assert(ps.take(parts.len() as int) == ps);
}

// ---------------------------------------------------------------------------
// Comparing
// ---------------------------------------------------------------------------

/// `==` on strings.
pub fn str_eq(a: &str, b: &str) -> (r: bool)
    ensures
        r == (a@ == b@),
{
    let x = chars_of(a);
    let y = chars_of(b);
    if x.len() != y.len() {
        return false;
    }
    let r = occurs_at_exec(&x, &y, 0);
    assert(r == (a@ == b@)) by {
        assert(x@.subrange(0, y@.len() as int) == x@);
    }
    r
}

/// `char::to_ascii_lowercase`.
pub open spec fn ascii_lower(c: char) -> char {
    if 'A' <= c && c <= 'Z' {
        ((c as u32) + 32) as char
    } else {
        c
    }
}

/// `str::eq_ignore_ascii_case`: equal once ASCII letters are lowercased.
pub open spec fn eq_ignore_ascii_case(a: Seq<char>, b: Seq<char>) -> bool {
    a.len() == b.len() && forall|i: int| 0 <= i < a.len() ==> ascii_lower(a[i]) == ascii_lower(b[i])
}

fn ascii_lower_exec(c: char) -> (r: char)
    ensures
        r == ascii_lower(c),
{
    if 'A' <= c && c <= 'Z' {
        ((c as u8) + 32) as char
    } else {
        c
    }
}

/// `str::eq_ignore_ascii_case`.
pub fn str_eq_ignore_ascii_case(a: &str, b: &str) -> (r: bool)
    ensures
        r == eq_ignore_ascii_case(a@, b@),
{
    let x = chars_of(a);
    let y = chars_of(b);
    if x.len() != y.len() {
        return false;
    }
    for i in 0..x.len()
        invariant
            x@ == a@,
            y@ == b@,
            x.len() == y.len(),
            forall|k: int| 0 <= k < i ==> ascii_lower(x@[k]) == ascii_lower(y@[k]),
    {
        if ascii_lower_exec(x[i]) != ascii_lower_exec(y[i]) {
            return false;
        }
    }
    true
}

// ---------------------------------------------------------------------------
// Ordering
// ---------------------------------------------------------------------------

/// `<=` on strings: lexicographic order of the characters.
pub open spec fn text_le(a: Seq<char>, b: Seq<char>) -> bool
    decreases a.len(),
{
    if a.len() == 0 {
        true
    } else if b.len() == 0 {
        false
    } else if a[0] != b[0] {
        a[0] < b[0]
    } else {
        text_le(a.drop_first(), b.drop_first())
    }
}

/// Comparing texts that start with prefixes of equal length: equal prefixes
/// leave the order to what follows; a smaller prefix decides.
pub proof fn lemma_text_le_concat(x1: Seq<char>, x2: Seq<char>, y1: Seq<char>, y2: Seq<char>)
    requires
        x1.len() == x2.len(),
    ensures
        x1 == x2 ==> text_le(x1 + y1, x2 + y2) == text_le(y1, y2),
        (text_le(x1, x2) && x1 != x2) ==> text_le(x1 + y1, x2 + y2),
    decreases x1.len(),
{
    if x1.len() == 0 {
        assert(x1 + y1 =~= y1);
        assert(x2 + y2 =~= y2);
        assert(x1 =~= x2);
    } else {
        assert((x1 + y1).drop_first() =~= x1.drop_first() + y1);
        assert((x2 + y2).drop_first() =~= x2.drop_first() + y2);
        assert((x1 + y1)[0] == x1[0]);
        assert((x2 + y2)[0] == x2[0]);
        lemma_text_le_concat(x1.drop_first(), x2.drop_first(), y1, y2);
        if x1[0] == x2[0] && x1 != x2 {
            assert(x1.drop_first() != x2.drop_first()) by {
                if x1.drop_first() == x2.drop_first() {
                    assert forall|i: int| 0 <= i < x1.len() implies x1[i] == x2[i] by {
                        if i > 0 {
                            assert(x1[i] == x1.drop_first()[i - 1]);
                            assert(x2[i] == x2.drop_first()[i - 1]);
                        }
                    }
                    assert(x1 =~= x2);
                }
            }
        }
    }
}

} // verus!
