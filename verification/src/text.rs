//! Strings as sequences of characters: trimming, splitting, searching and joining.

use vstd::prelude::*;

verus! {

/// `String::push` appends one character at the end.
pub assume_specification[ String::push ](s: &mut String, c: char)
    ensures
        final(s)@ == old(s)@.push(c),
;

/// The characters with the Unicode `White_Space` property.
pub open spec fn is_space(c: char) -> bool {
    ||| '\u{9}' <= c <= '\u{d}'
    ||| c == ' '
    ||| c == '\u{85}'
    ||| c == '\u{a0}'
    ||| c == '\u{1680}'
    ||| '\u{2000}' <= c <= '\u{200a}'
    ||| c == '\u{2028}'
    ||| c == '\u{2029}'
    ||| c == '\u{202f}'
    ||| c == '\u{205f}'
    ||| c == '\u{3000}'
}

/// `s` without its leading white space.
pub open spec fn trimmed_start(s: Seq<char>) -> Seq<char>
    decreases s.len(),
{
    if s.len() > 0 && is_space(s[0]) {
        trimmed_start(s.skip(1))
    } else {
        s
    }
}

/// `s` without its trailing white space.
pub open spec fn trimmed_end(s: Seq<char>) -> Seq<char>
    decreases s.len(),
{
    if s.len() > 0 && is_space(s.last()) {
        trimmed_end(s.drop_last())
    } else {
        s
    }
}

/// `s` without the white space around it.
pub open spec fn trimmed(s: Seq<char>) -> Seq<char> {
    trimmed_end(trimmed_start(s))
}

/// Whether `s` begins with `p`.
pub open spec fn has_prefix(s: Seq<char>, p: Seq<char>) -> bool {
    p.len() <= s.len() && s.take(p.len() as int) == p
}

/// Whether `s` ends with `p`.
pub open spec fn has_suffix(s: Seq<char>, p: Seq<char>) -> bool {
    p.len() <= s.len() && s.skip(s.len() - p.len()) == p
}

/// Whether `p` stands in `s` at position `i`.
pub open spec fn occurs_at(s: Seq<char>, p: Seq<char>, i: int) -> bool {
    0 <= i && i + p.len() <= s.len() && s.subrange(i, i + p.len()) == p
}

/// Whether `p` stands anywhere in `s`.
pub open spec fn occurs(s: Seq<char>, p: Seq<char>) -> bool {
    exists|i: int| occurs_at(s, p, i)
}

/// Whether `i` is the first place where `p` stands in `s`.
pub open spec fn first_occurrence(s: Seq<char>, p: Seq<char>, i: int) -> bool {
    &&& occurs_at(s, p, i)
    &&& forall|k: int| 0 <= k < i ==> !occurs_at(s, p, k)
}

/// The first place where `p` stands in `s`.
pub open spec fn position(s: Seq<char>, p: Seq<char>) -> Option<int>
    decreases s.len(),
{
    if has_prefix(s, p) {
        Some(0)
    } else if s.len() == 0 {
        None
    } else {
        match position(s.skip(1), p) {
            Some(i) => Some(i + 1),
            None => None,
        }
    }
}

/// `s` without any repetitions of `p` at its beginning.
pub open spec fn stripped_start(s: Seq<char>, p: Seq<char>) -> Seq<char>
    decreases s.len(),
{
    if p.len() > 0 && has_prefix(s, p) {
        stripped_start(s.skip(p.len() as int), p)
    } else {
        s
    }
}

/// `s` without the characters `a` and `b` at its two ends.
pub open spec fn unquoted(s: Seq<char>, a: char, b: char) -> Seq<char>
    decreases s.len(),
{
    if s.len() > 0 && (s[0] == a || s[0] == b) {
        unquoted(s.skip(1), a, b)
    } else if s.len() > 0 && (s.last() == a || s.last() == b) {
        unquoted(s.drop_last(), a, b)
    } else {
        s
    }
}

/// The pieces of `s` between the occurrences of `c`; there is always at least one.
pub open spec fn pieces(s: Seq<char>, c: char) -> Seq<Seq<char>>
    decreases s.len(),
{
    if s.len() == 0 {
        seq![Seq::empty()]
    } else {
        let p = pieces(s.drop_last(), c);
        if s.last() == c {
            p.push(Seq::empty())
        } else {
            p.drop_last().push(p.last().push(s.last()))
        }
    }
}

/// A line without the carriage return that stands before its line feed.
pub open spec fn without_cr(line: Seq<char>) -> Seq<char> {
    if line.len() > 0 && line.last() == '\r' {
        line.drop_last()
    } else {
        line
    }
}

/// The lines of `s`: each ends at a line feed, with an optional carriage
/// return before it; the last one may lack its ending.
pub open spec fn lines_of(s: Seq<char>) -> Seq<Seq<char>> {
    let p = pieces(s, '\n');
    let ended = p.drop_last().map_values(|l: Seq<char>| without_cr(l));
    if p.last().len() == 0 {
        ended
    } else {
        ended.push(p.last())
    }
}

/// The parts one after the other, with `sep` between each two.
pub open spec fn joined(parts: Seq<Seq<char>>, sep: Seq<char>) -> Seq<char>
    decreases parts.len(),
{
    if parts.len() == 0 {
        Seq::empty()
    } else if parts.len() == 1 {
        parts[0]
    } else {
        joined(parts.drop_last(), sep) + sep + parts.last()
    }
}

/// The contents of a list of strings.
pub open spec fn texts(v: Seq<String>) -> Seq<Seq<char>> {
    Seq::new(v.len(), |i: int| v[i]@)
}

/// The content of an optional text slice.
pub open spec fn opt_str(o: Option<&str>) -> Option<Seq<char>> {
    match o {
        Some(s) => Some(s@),
        None => None,
    }
}

/// The content of an optional string.
pub open spec fn opt_text(o: Option<String>) -> Option<Seq<char>> {
    match o {
        Some(s) => Some(s@),
        None => None,
    }
}

/// Whether `c` is white space.
pub fn space(c: char) -> (b: bool)
    ensures
        b == is_space(c),
{
    ('\u{9}' <= c && c <= '\u{d}') || c == ' ' || c == '\u{85}' || c == '\u{a0}'
        || c == '\u{1680}' || ('\u{2000}' <= c && c <= '\u{200a}') || c == '\u{2028}'
        || c == '\u{2029}' || c == '\u{202f}' || c == '\u{205f}' || c == '\u{3000}'
}

/// The characters of a string.
pub fn chars_of(s: &str) -> (v: Vec<char>)
    ensures
        v@ == s@,
{
    let mut v: Vec<char> = Vec::new();
    for c in it: s.chars()
        invariant
            v@ == s@.take(it.index() as int),
            it.seq() == s@,
    {
        v.push(c);
    }
    v
}

/// The string made of the given characters.
pub fn string_of(cs: &[char]) -> (s: String)
    ensures
        s@ == cs@,
{
    let mut s: String = String::new();
    let mut i: usize = 0;
    while i < cs.len()
        invariant
            i <= cs@.len(),
            s@ == cs@.take(i as int),
        decreases cs@.len() - i,
    {
        s.push(cs[i]);
        i += 1;
        proof {
            assert(cs@.take(i as int) =~= cs@.take(i - 1).push(cs@[i - 1]));
        }
    }
    proof {
        assert(cs@.take(i as int) =~= cs@);
    }
    s
}

/// Whether the two strings hold the same characters.
pub fn same(a: &str, b: &str) -> (r: bool)
    ensures
        r == (a@ == b@),
{
    let x = chars_of(a);
    let y = chars_of(b);
    if x.len() != y.len() {
        return false;
    }
    let mut i: usize = 0;
    while i < x.len()
        invariant
            x@ == a@,
            y@ == b@,
            x.len() == y.len(),
            i <= x.len(),
            forall|k: int| 0 <= k < i ==> x@[k] == y@[k],
        decreases x.len() - i,
    {
        if x[i] != y[i] {
            return false;
        }
        i += 1;
    }
    proof {
        assert(a@ =~= b@);
    }
    true
}

/// `str::trim_start`.
pub fn trim_start(s: &str) -> (r: &str)
    ensures
        r@ == trimmed_start(s@),
{
    let cs = chars_of(s);
    let mut i: usize = 0;
    proof {
        assert(s@.skip(0) =~= s@);
    }
    while i < cs.len() && space(cs[i])
        invariant
            cs@ == s@,
            i <= cs.len(),
            trimmed_start(s@) == trimmed_start(s@.skip(i as int)),
        decreases cs.len() - i,
    {
        proof {
            assert(s@.skip(i as int).skip(1) =~= s@.skip(i + 1));
        }
        i += 1;
    }
    proof {
        assert(s@.skip(i as int) =~= s@.subrange(i as int, s@.len() as int));
    }
    s.substring_char(i, cs.len())
}

/// `str::trim_end`.
pub fn trim_end(s: &str) -> (r: &str)
    ensures
        r@ == trimmed_end(s@),
{
    let cs = chars_of(s);
    let mut j: usize = cs.len();
    proof {
        assert(s@.take(j as int) =~= s@);
    }
    while j > 0 && space(cs[j - 1])
        invariant
            cs@ == s@,
            j <= cs.len(),
            trimmed_end(s@) == trimmed_end(s@.take(j as int)),
        decreases j,
    {
        proof {
            assert(s@.take(j as int).drop_last() =~= s@.take(j - 1));
        }
        j -= 1;
    }
    s.substring_char(0, j)
}

/// `str::trim`.
pub fn trim(s: &str) -> (r: &str)
    ensures
        r@ == trimmed(s@),
{
    trim_end(trim_start(s))
}

/// Whether `p` stands in `cs` at position `i`.
fn stands_at(cs: &Vec<char>, p: &Vec<char>, i: usize) -> (r: bool)
    ensures
        r == occurs_at(cs@, p@, i as int),
{
    if i > cs.len() || p.len() > cs.len() - i {
        return false;
    }
    let mut k: usize = 0;
    while k < p.len()
        invariant
            i + p.len() <= cs.len(),
            k <= p.len(),
            forall|m: int| 0 <= m < k ==> cs@[i + m] == p@[m],
        decreases p.len() - k,
    {
        if cs[i + k] != p[k] {
            proof {
                assert(cs@.subrange(i as int, i + p.len())[k as int] != p@[k as int]);
            }
            return false;
        }
        k += 1;
    }
    proof {
        assert(cs@.subrange(i as int, i + p.len()) =~= p@);
    }
    true
}

/// `str::starts_with` for a string pattern.
pub fn starts_with(s: &str, p: &str) -> (r: bool)
    ensures
        r == has_prefix(s@, p@),
{
    proof {
        assert(p@.len() <= s@.len() ==> s@.take(p@.len() as int) =~= s@.subrange(
            0,
            p@.len() as int,
        ));
    }
    stands_at(&chars_of(s), &chars_of(p), 0)
}

/// `str::ends_with` for a string pattern.
pub fn ends_with(s: &str, p: &str) -> (r: bool)
    ensures
        r == has_suffix(s@, p@),
{
    let cs = chars_of(s);
    let ps = chars_of(p);
    if ps.len() > cs.len() {
        return false;
    }
    proof {
        assert(s@.skip(s@.len() - p@.len()) =~= s@.subrange(
            s@.len() - p@.len(),
            s@.len() as int,
        ));
    }
    stands_at(&cs, &ps, cs.len() - ps.len())
}

/// `str::strip_prefix` for a string pattern.
pub fn strip_prefix<'a>(s: &'a str, p: &str) -> (r: Option<&'a str>)
    ensures
        r is Some == has_prefix(s@, p@),
        r matches Some(t) ==> t@ == s@.skip(p@.len() as int),
{
    if starts_with(s, p) {
        proof {
            assert(s@.skip(p@.len() as int) =~= s@.subrange(p@.len() as int, s@.len() as int));
        }
        Some(s.substring_char(p.unicode_len(), s.unicode_len()))
    } else {
        None
    }
}

/// `str::strip_suffix` for a string pattern.
pub fn strip_suffix<'a>(s: &'a str, p: &str) -> (r: Option<&'a str>)
    ensures
        r is Some == has_suffix(s@, p@),
        r matches Some(t) ==> t@ == s@.take(s@.len() - p@.len()),
{
    if ends_with(s, p) {
        proof {
            assert(s@.take(s@.len() - p@.len()) =~= s@.subrange(0, s@.len() - p@.len()));
        }
        Some(s.substring_char(0, s.unicode_len() - p.unicode_len()))
    } else {
        None
    }
}

/// `position` gives the first occurrence, if there is one.
pub proof fn lemma_position(s: Seq<char>, p: Seq<char>)
    ensures
        match position(s, p) {
            Some(i) => first_occurrence(s, p, i),
            None => !occurs(s, p),
        },
        forall|i: int| #[trigger] first_occurrence(s, p, i) ==> position(s, p) == Some(i),
    decreases s.len(),
{
    assert(has_prefix(s, p) == occurs_at(s, p, 0)) by {
        if p.len() <= s.len() {
            assert(s.take(p.len() as int) =~= s.subrange(0, 0int + p.len()));
        }
    }
    if !has_prefix(s, p) && s.len() > 0 {
        let t = s.skip(1);
        lemma_position(t, p);
        assert forall|k: int| k >= 1 implies occurs_at(s, p, k) == #[trigger] occurs_at(t, p, k - 1)
            by {
            if k + p.len() <= s.len() {
                assert(s.subrange(k, k + p.len()) =~= t.subrange(k - 1, k - 1 + p.len()));
            }
        }
        assert forall|i: int| #[trigger] occurs_at(s, p, i) implies occurs_at(t, p, i - 1) by {
            assert(i >= 1);
        }
        match position(t, p) {
            Some(j) => {
                assert(occurs_at(s, p, j + 1) == occurs_at(t, p, j + 1 - 1));
                assert forall|k: int| 0 <= k < j + 1 implies !occurs_at(s, p, k) by {}
                assert(first_occurrence(s, p, j + 1));
            },
            None => {},
        }
    }
    match position(s, p) {
        Some(j) => {
            assert forall|i: int| #[trigger] first_occurrence(s, p, i) implies i == j by {
                assert(occurs_at(s, p, i) && occurs_at(s, p, j));
            }
        },
        None => {},
    }
}

/// `str::find` for a string pattern, counted in characters.
pub fn find(s: &str, p: &str) -> (r: Option<usize>)
    ensures
        r matches Some(i) ==> first_occurrence(s@, p@, i as int) && position(s@, p@) == Some(
            i as int,
        ),
        r is None ==> !occurs(s@, p@) && position(s@, p@) is None,
{
    let cs = chars_of(s);
    let ps = chars_of(p);
    let mut i: usize = 0;
    loop
        invariant
            cs@ == s@,
            ps@ == p@,
            i <= cs.len(),
            forall|k: int| 0 <= k < i ==> !occurs_at(s@, p@, k),
        decreases cs.len() + 1 - i,
    {
        proof {
            lemma_position(s@, p@);
        }
        if stands_at(&cs, &ps, i) {
            return Some(i);
        }
        if i == cs.len() {
            return None;
        }
        i += 1;
    }
}

/// `str::contains` for a string pattern.
pub fn contains(s: &str, p: &str) -> (r: bool)
    ensures
        r == occurs(s@, p@),
{
    match find(s, p) {
        Some(_) => true,
        None => false,
    }
}

proof fn lemma_pieces_nonempty(s: Seq<char>, c: char)
    ensures
        pieces(s, c).len() > 0,
    decreases s.len(),
{
    if s.len() > 0 {
        lemma_pieces_nonempty(s.drop_last(), c);
    }
}

/// `str::split` at a character.
pub fn split_char(s: &str, c: char) -> (r: Vec<String>)
    ensures
        texts(r@) == pieces(s@, c),
        r@.len() > 0,
{
    let cs = chars_of(s);
    let mut done: Vec<String> = Vec::new();
    let mut last: String = String::new();
    let mut i: usize = 0;
    while i < cs.len()
        invariant
            cs@ == s@,
            i <= cs.len(),
            texts(done@).push(last@) =~= pieces(s@.take(i as int), c),
        decreases cs.len() - i,
    {
        let ghost before = texts(done@).push(last@);
        let ghost prefix = s@.take(i + 1);
        proof {
            assert(prefix.drop_last() =~= s@.take(i as int));
            assert(before.drop_last() =~= texts(done@));
        }
        if cs[i] == c {
            done.push(last);
            last = String::new();
            proof {
                assert(texts(done@) =~= before);
                assert(last@ =~= Seq::<char>::empty());
            }
        } else {
            last.push(cs[i]);
        }
        i += 1;
    }
    proof {
        assert(s@.take(i as int) =~= s@);
    }
    let ghost d = done@;
    done.push(last);
    proof {
        assert(texts(done@) =~= texts(d).push(last@));
    }
    done
}

/// `str::lines`.
pub fn lines(s: &str) -> (r: Vec<String>)
    ensures
        texts(r@) == lines_of(s@),
{
    let parts = split_char(s, '\n');
    let ghost p = pieces(s@, '\n');
    let ghost ended = p.drop_last().map_values(|l: Seq<char>| without_cr(l));
    let n: usize = parts.len() - 1;
    let mut out: Vec<String> = Vec::new();
    let mut i: usize = 0;
    while i < n
        invariant
            n == parts.len() - 1,
            i <= n,
            texts(parts@) == p,
            ended == p.drop_last().map_values(|l: Seq<char>| without_cr(l)),
            texts(out@) =~= ended.take(i as int),
        decreases n - i,
    {
        let line: &str = parts[i].as_str();
        proof {
            assert(texts(parts@)[i as int] == parts@[i as int]@);
        }
        let len: usize = line.unicode_len();
        let ghost o = out@;
        if len > 0 && line.get_char(len - 1) == '\r' {
            out.push(line.substring_char(0, len - 1).to_owned());
        } else {
            out.push(line.to_owned());
        }
        proof {
            assert(out@.last()@ =~= without_cr(p[i as int]));
            assert(texts(out@) =~= texts(o).push(out@.last()@));
        }
        i += 1;
    }
    proof {
        assert(ended.take(n as int) =~= ended);
        assert(texts(parts@)[n as int] == parts@[n as int]@);
    }
    if !parts[n].as_str().is_empty() {
        let ghost o = out@;
        out.push(parts[n].as_str().to_owned());
        proof {
            assert(texts(out@) =~= texts(o).push(p.last()));
        }
    }
    out
}

/// `[String]::join`.
pub fn join(parts: &[String], sep: &str) -> (r: String)
    ensures
        r@ == joined(texts(parts@), sep@),
{
    let mut out: String = String::new();
    let mut i: usize = 0;
    while i < parts.len()
        invariant
            i <= parts@.len(),
            out@ =~= joined(texts(parts@).take(i as int), sep@),
        decreases parts@.len() - i,
    {
        let ghost all = texts(parts@);
        proof {
            assert(all.take(i + 1).drop_last() =~= all.take(i as int));
        }
        if i > 0 {
            out.append(sep);
        }
        out.append(parts[i].as_str());
        i += 1;
    }
    proof {
        assert(texts(parts@).take(i as int) =~= texts(parts@));
    }
    out
}

/// A copy of a list of strings.
pub fn copy_texts(v: &[String]) -> (r: Vec<String>)
    ensures
        texts(r@) == texts(v@),
        r@.len() == v@.len(),
{
    let mut out: Vec<String> = Vec::new();
    let mut i: usize = 0;
    while i < v.len()
        invariant
            i <= v@.len(),
            texts(out@) =~= texts(v@).take(i as int),
            out@.len() == i,
        decreases v@.len() - i,
    {
        let ghost o = out@;
        out.push(v[i].clone());
        proof {
            assert(texts(out@) =~= texts(o).push(v@[i as int]@));
        }
        i += 1;
    }
    out
}

/// `str::split_once` at a string.
pub fn split_once<'a>(s: &'a str, p: &str) -> (r: Option<(&'a str, &'a str)>)
    ensures
        match position(s@, p@) {
            Some(i) => r matches Some((a, b)) && a@ == s@.take(i) && b@ == s@.skip(i + p@.len()),
            None => r is None,
        },
{
    match find(s, p) {
        Some(i) => {
            proof {
                assert(s@.skip(i + p@.len()) =~= s@.subrange(i + p@.len(), s@.len() as int));
            }
            let m: usize = p.unicode_len();
            let n: usize = s.unicode_len();
            Some((s.substring_char(0, i), s.substring_char(i + m, n)))
        },
        None => None,
    }
}

/// `str::trim_start_matches` for a non-empty string pattern.
pub fn trim_start_matches<'a>(s: &'a str, p: &str) -> (r: &'a str)
    requires
        p@.len() > 0,
    ensures
        r@ == stripped_start(s@, p@),
    decreases s@.len(),
{
    match strip_prefix(s, p) {
        Some(rest) => trim_start_matches(rest, p),
        None => s,
    }
}

/// `str::trim_matches` for two characters.
pub fn trim_quotes(s: &str, a: char, b: char) -> (r: &str)
    ensures
        r@ == unquoted(s@, a, b),
    decreases s@.len(),
{
    let n: usize = s.unicode_len();
    if n > 0 && (s.get_char(0) == a || s.get_char(0) == b) {
        proof {
            assert(s@.skip(1) =~= s@.subrange(1, n as int));
        }
        trim_quotes(s.substring_char(1, n), a, b)
    } else if n > 0 && (s.get_char(n - 1) == a || s.get_char(n - 1) == b) {
        proof {
            assert(s@.drop_last() =~= s@.subrange(0, n - 1));
        }
        trim_quotes(s.substring_char(0, n - 1), a, b)
    } else {
        s
    }
}

/// No piece is longer than the whole.
pub proof fn lemma_pieces_len(s: Seq<char>, c: char)
    ensures
        pieces(s, c).len() > 0,
        forall|i: int| 0 <= i < pieces(s, c).len() ==> (#[trigger] pieces(s, c)[i]).len()
            <= s.len(),
    decreases s.len(),
{
    if s.len() > 0 {
        lemma_pieces_len(s.drop_last(), c);
    }
}

/// No line is longer than the whole.
pub proof fn lemma_lines_len(s: Seq<char>)
    ensures
        forall|i: int| 0 <= i < lines_of(s).len() ==> (#[trigger] lines_of(s)[i]).len() <= s.len(),
{
    lemma_pieces_len(s, '\n');
}

/// Trimming never adds anything.
pub proof fn lemma_trimmed_len(s: Seq<char>)
    ensures
        trimmed_start(s).len() <= s.len(),
        trimmed_end(s).len() <= s.len(),
        trimmed(s).len() <= s.len(),
{
    lemma_trimmed_start_len(s);
    lemma_trimmed_end_len(s);
    lemma_trimmed_end_len(trimmed_start(s));
}

/// A text without white space at its ends is what trimming leaves of it.
pub proof fn lemma_trimmed_ends(s: Seq<char>)
    requires
        s.len() > 0,
    ensures
        trimmed(s) == s <==> !is_space(s[0]) && !is_space(s.last()),
{
    lemma_trimmed_len(trimmed_start(s));
    lemma_trimmed_len(s.skip(1));
    lemma_trimmed_len(s.drop_last());
}

proof fn lemma_trimmed_start_push(s: Seq<char>, c: char)
    ensures
        trimmed_start(s.push(c)) == if trimmed_start(s).len() > 0 {
            trimmed_start(s).push(c)
        } else if is_space(c) {
            Seq::empty()
        } else {
            seq![c]
        },
    decreases s.len(),
{
    if s.len() > 0 {
        assert(s.push(c).skip(1) =~= s.skip(1).push(c));
        if is_space(s[0]) {
            lemma_trimmed_start_push(s.skip(1), c);
        }
    } else {
        assert(s.push(c).skip(1) =~= Seq::empty());
        assert(s.push(c) =~= seq![c]);
        assert(trimmed_start(Seq::empty()) =~= Seq::<char>::empty());
    }
}

/// It is all the same which end of a text is trimmed first.
pub proof fn lemma_trimmed_either_way(s: Seq<char>)
    ensures
        trimmed(s) == trimmed_start(trimmed_end(s)),
    decreases s.len(),
{
    if s.len() > 0 {
        let d = s.drop_last();
        let c = s.last();
        assert(d.push(c) =~= s);
        lemma_trimmed_start_push(d, c);
        if is_space(c) {
            lemma_trimmed_either_way(d);
            if trimmed_start(d).len() > 0 {
                assert(trimmed_start(d).push(c).drop_last() =~= trimmed_start(d));
            }
        }
    }
}

/// What comes behind the last `c` is the last piece.
pub proof fn lemma_last_piece(s: Seq<char>, c: char, end: Seq<char>)
    requires
        !end.contains(c),
    ensures
        pieces(s.push(c) + end, c).last() == end,
    decreases end.len(),
{
    let whole = s.push(c) + end;
    if end.len() == 0 {
        assert(whole =~= s.push(c));
        assert(end =~= Seq::empty());
    } else {
        let front = end.drop_last();
        assert forall|i: int| 0 <= i < front.len() implies front[i] != c by {
            assert(end.contains(end[i]));
        }
        lemma_last_piece(s, c, front);
        assert(whole.drop_last() =~= s.push(c) + front);
        assert(end.contains(end.last()));
        assert(front.push(end.last()) =~= end);
    }
}

proof fn lemma_trimmed_start_len(s: Seq<char>)
    ensures
        trimmed_start(s).len() <= s.len(),
    decreases s.len(),
{
    if s.len() > 0 {
        lemma_trimmed_start_len(s.skip(1));
    }
}

proof fn lemma_trimmed_end_len(s: Seq<char>)
    ensures
        trimmed_end(s).len() <= s.len(),
    decreases s.len(),
{
    if s.len() > 0 {
        lemma_trimmed_end_len(s.drop_last());
    }
}

/// The digit with the value.
pub open spec fn digit(d: int) -> char {
    ('0' as u32 + d) as char
}

/// A number in decimal.
pub open spec fn decimal(n: nat) -> Seq<char>
    decreases n,
{
    if n < 10 {
        seq![digit(n as int)]
    } else {
        decimal(n / 10).push(digit((n % 10) as int))
    }
}

fn digit_of(d: u64) -> (c: char)
    requires
        d < 10,
    ensures
        c == digit(d as int),
{
    if d == 0 {
        '0'
    } else if d == 1 {
        '1'
    } else if d == 2 {
        '2'
    } else if d == 3 {
        '3'
    } else if d == 4 {
        '4'
    } else if d == 5 {
        '5'
    } else if d == 6 {
        '6'
    } else if d == 7 {
        '7'
    } else if d == 8 {
        '8'
    } else {
        '9'
    }
}

fn decimal_of_u128(n: u128) -> (r: String)
    ensures
        r@ == decimal(n as nat),
    decreases n,
{
    if n < 10 {
        let mut s: String = String::new();
        s.push(digit_of(n as u64));
        proof {
            assert(s@ =~= seq![digit(n as int)]);
        }
        s
    } else {
        let mut s = decimal_of_u128(n / 10);
        s.push(digit_of((n % 10) as u64));
        s
    }
}

/// A number in decimal, with a minus sign where it is negative.
pub open spec fn signed_decimal(n: int) -> Seq<char> {
    if n < 0 {
        seq!['-'] + decimal((-n) as nat)
    } else {
        decimal(n as nat)
    }
}

/// A number in decimal, with a minus sign where it is negative.
pub fn decimal_of_i128(n: i128) -> (r: String)
    ensures
        r@ == signed_decimal(n as int),
{
    if n < 0 {
        let below = -(n + 1);
        let mut s: String = String::new();
        s.push('-');
        s.append(decimal_of_u128(below as u128 + 1).as_str());
        proof {
            assert(s@ =~= seq!['-'] + decimal((-n) as nat));
        }
        s
    } else {
        decimal_of_u128(n as u128)
    }
}

/// A number in decimal.
pub fn decimal_of(n: u64) -> (r: String)
    ensures
        r@ == decimal(n as nat),
    decreases n,
{
    if n < 10 {
        let mut s: String = String::new();
        s.push(digit_of(n));
        proof {
            assert(s@ =~= seq![digit(n as int)]);
        }
        s
    } else {
        let mut s = decimal_of(n / 10);
        s.push(digit_of(n % 10));
        s
    }
}

/// `s` with every occurrence of `p` replaced, from the left.
pub open spec fn replaced(s: Seq<char>, p: Seq<char>, by: Seq<char>) -> Seq<char>
    decreases s.len(),
{
    match position(s, p) {
        Some(i) => if p.len() > 0 && 0 <= i && i + p.len() <= s.len() {
            s.take(i) + by + replaced(s.skip(i + p.len()), p, by)
        } else {
            s
        },
        None => s,
    }
}

/// `str::replace` for a non-empty string pattern.
pub fn replace(s: &str, p: &str, by: &str) -> (r: String)
    requires
        p@.len() > 0,
    ensures
        r@ == replaced(s@, p@, by@),
    decreases s@.len(),
{
    proof {
        lemma_position(s@, p@);
    }
    match split_once(s, p) {
        Some((before, after)) => {
            let mut out: String = before.to_owned();
            out.append(by);
            out.append(replace(after, p, by).as_str());
            out
        },
        None => s.to_owned(),
    }
}

/// The runs of characters between white space.
pub open spec fn words(s: Seq<char>) -> Seq<Seq<char>>
    decreases s.len(),
{
    if s.len() == 0 {
        Seq::empty()
    } else {
        let before = words(s.drop_last());
        if is_space(s.last()) {
            before
        } else if s.len() > 1 && !is_space(s[s.len() - 2]) {
            before.drop_last().push(before.last().push(s.last()))
        } else {
            before.push(seq![s.last()])
        }
    }
}

/// `str::split_whitespace`.
pub fn split_words(s: &str) -> (r: Vec<String>)
    ensures
        texts(r@) == words(s@),
{
    let cs = chars_of(s);
    let mut out: Vec<String> = Vec::new();
    let mut word: String = String::new();
    let mut open = false;
    let mut i: usize = 0;
    proof {
        assert(texts(out@) =~= words(s@.take(0)));
    }
    while i < cs.len()
        invariant
            cs@ == s@,
            i <= cs.len(),
            open == (i > 0 && !is_space(s@[i - 1])),
            open ==> words(s@.take(i as int)) == texts(out@).push(word@),
            !open ==> words(s@.take(i as int)) == texts(out@),
        decreases cs.len() - i,
    {
        let ghost here = s@.take(i + 1);
        let ghost done = texts(out@);
        proof {
            assert(here.drop_last() =~= s@.take(i as int));
            if i > 0 {
                assert(here[here.len() - 2] == s@[i - 1]);
            }
        }
        if space(cs[i]) {
            if open {
                out.push(word);
                word = String::new();
                proof {
                    assert(texts(out@) =~= words(s@.take(i as int)));
                }
                open = false;
            }
        } else {
            if open {
                proof {
                    let b = done.push(word@);
                    assert(b.drop_last() =~= done);
                }
            } else {
                word = String::new();
            }
            let ghost w = word@;
            word.push(cs[i]);
            proof {
                if open {
                    assert(words(here) =~= done.push(w.push(s@[i as int])));
                } else {
                    assert(word@ =~= seq![s@[i as int]]);
                }
            }
            open = true;
        }
        i += 1;
    }
    proof {
        assert(s@.take(i as int) =~= s@);
    }
    if open {
        let ghost done = texts(out@);
        out.push(word);
        proof {
            assert(texts(out@) =~= done.push(word@));
        }
    }
    out
}

/// How many bytes a character takes in UTF-8.
pub open spec fn utf8_size(c: char) -> nat {
    if (c as u32) < 0x80 {
        1
    } else if (c as u32) < 0x800 {
        2
    } else if (c as u32) < 0x10000 {
        3
    } else {
        4
    }
}

/// How many bytes a text takes in UTF-8.
pub open spec fn size(s: Seq<char>) -> nat
    decreases s.len(),
{
    if s.len() == 0 {
        0
    } else {
        size(s.drop_last()) + utf8_size(s.last())
    }
}

/// How many bytes a character takes in UTF-8.
pub fn char_size(c: char) -> (n: usize)
    ensures
        n == utf8_size(c),
{
    if (c as u32) < 0x80 {
        1
    } else if (c as u32) < 0x800 {
        2
    } else if (c as u32) < 0x10000 {
        3
    } else {
        4
    }
}

/// The longest beginning of `s` that takes at most `budget` bytes.
pub open spec fn fitting(s: Seq<char>, budget: nat) -> Seq<char>
    decreases s.len(),
{
    if size(s) <= budget {
        s
    } else if s.len() == 0 {
        s
    } else {
        fitting(s.drop_last(), budget)
    }
}

proof fn lemma_size_prefix(s: Seq<char>, i: int)
    requires
        0 <= i <= s.len(),
    ensures
        size(s.take(i)) <= size(s),
    decreases s.len(),
{
    if i < s.len() {
        lemma_size_prefix(s.drop_last(), i);
        assert(s.drop_last().take(i) =~= s.take(i));
    } else {
        assert(s.take(i) =~= s);
    }
}

proof fn lemma_fitting_prefix(s: Seq<char>, i: int, budget: nat)
    requires
        0 <= i < s.len(),
        size(s.take(i)) <= budget,
        size(s.take(i + 1)) > budget,
    ensures
        fitting(s, budget) == s.take(i),
    decreases s.len(),
{
    lemma_size_prefix(s, i + 1);
    if i + 1 == s.len() {
        assert(s.take(i + 1) =~= s);
        assert(s.drop_last() =~= s.take(i));
        assert(fitting(s.drop_last(), budget) == s.drop_last());
    } else {
        let d = s.drop_last();
        assert(d.take(i) =~= s.take(i));
        assert(d.take(i + 1) =~= s.take(i + 1));
        lemma_fitting_prefix(d, i, budget);
    }
}

/// What fits a budget takes at most the budget, and is the whole text if that fits.
pub proof fn lemma_fitting(s: Seq<char>, budget: nat)
    ensures
        size(fitting(s, budget)) <= budget,
        size(s) <= budget ==> fitting(s, budget) == s,
        fitting(s, budget).len() <= s.len(),
    decreases s.len(),
{
    if size(s) > budget && s.len() > 0 {
        lemma_fitting(s.drop_last(), budget);
    }
}

/// The longest beginning of `s` that takes at most `budget` bytes, and what
/// is left of the budget.
pub fn fit(s: &str, budget: usize) -> (r: (&str, usize))
    ensures
        r.0@ == fitting(s@, budget as nat),
        r.1 == budget - size(r.0@),
{
    let cs = chars_of(s);
    let mut left: usize = budget;
    let mut i: usize = 0;
    proof {
        assert(size(s@.take(0)) == 0);
    }
    while i < cs.len()
        invariant
            cs@ == s@,
            i <= cs.len(),
            left + size(s@.take(i as int)) == budget,
        decreases cs.len() - i,
    {
        proof {
            assert(s@.take(i + 1).drop_last() =~= s@.take(i as int));
        }
        let n: usize = char_size(cs[i]);
        if n > left {
            proof {
                lemma_fitting_prefix(s@, i as int, budget as nat);
                assert(s@.take(i as int) =~= s@.subrange(0, i as int));
            }
            return (s.substring_char(0, i), left);
        }
        left -= n;
        i += 1;
    }
    proof {
        assert(s@.take(i as int) =~= s@);
    }
    (s, left)
}

/// Splitting at a character and joining with that character gives the string back.
pub proof fn lemma_join_pieces(s: Seq<char>, c: char)
    ensures
        joined(pieces(s, c), seq![c]) == s,
    decreases s.len(),
{
    lemma_pieces_nonempty(s, c);
    if s.len() > 0 {
        let before = s.drop_last();
        let p = pieces(before, c);
        lemma_join_pieces(before, c);
        lemma_pieces_nonempty(before, c);
        if s.last() == c {
            assert(pieces(s, c).drop_last() =~= p);
            assert(joined(pieces(s, c), seq![c]) =~= before + seq![c] + Seq::<char>::empty());
        } else {
            let q = p.drop_last().push(p.last().push(s.last()));
            assert(q.drop_last() =~= p.drop_last());
            assert(joined(q, seq![c]) =~= joined(p, seq![c]).push(s.last()));
        }
        assert(s =~= before.push(s.last()));
    } else {
        assert(joined(pieces(s, c), seq![c]) =~= s);
    }
}

/// Joining two lists is joining each, with the separator in between.
pub proof fn lemma_joined_together(a: Seq<Seq<char>>, b: Seq<Seq<char>>, sep: Seq<char>)
    requires
        a.len() > 0,
        b.len() > 0,
    ensures
        joined(a + b, sep) == joined(a, sep) + sep + joined(b, sep),
    decreases b.len(),
{
    let whole = a + b;
    assert(whole.last() == b.last());
    if b.len() == 1 {
        assert(whole.drop_last() =~= a);
    } else {
        let d = b.drop_last();
        lemma_joined_together(a, d, sep);
        assert(whole.drop_last() =~= a + d);
        assert(joined(whole, sep) =~= joined(a, sep) + sep + joined(b, sep));
    }
}

/// White space parts the words before it from those after it.
pub proof fn lemma_words_are_parted(a: Seq<char>, c: char, b: Seq<char>)
    requires
        is_space(c),
    ensures
        words(a.push(c) + b) == words(a) + words(b),
    decreases b.len(),
{
    let whole = a.push(c) + b;
    if b.len() == 0 {
        assert(whole =~= a.push(c));
        assert(whole.drop_last() =~= a);
        assert(words(a) + words(b) =~= words(a));
    } else {
        let d = b.drop_last();
        lemma_words_are_parted(a, c, d);
        assert(whole.drop_last() =~= a.push(c) + d);
        assert(whole.last() == b.last());
        let before = words(a) + words(d);
        if d.len() > 0 {
            assert(whole[whole.len() - 2] == d.last());
            assert(b[b.len() - 2] == d.last());
            if !is_space(d.last()) {
                assert(words(d).len() > 0);
                assert(before.last() == words(d).last());
                assert(before.drop_last() =~= words(a) + words(d).drop_last());
            }
        } else {
            assert(whole[whole.len() - 2] == c);
        }
        assert(words(whole) =~= words(a) + words(b));
    }
}

/// A text without white space is one word.
pub proof fn lemma_one_word(s: Seq<char>)
    requires
        s.len() > 0,
        forall|i: int| 0 <= i < s.len() ==> !is_space(#[trigger] s[i]),
    ensures
        words(s) == seq![s],
    decreases s.len(),
{
    let d = s.drop_last();
    assert(s.last() == s[s.len() - 1]);
    if d.len() > 0 {
        assert(forall|i: int| 0 <= i < d.len() ==> d[i] == s[i]);
        lemma_one_word(d);
        assert(d.push(s.last()) =~= s);
        assert(words(s) =~= seq![s]);
    } else {
        assert(words(d) =~= Seq::empty());
        assert(seq![s.last()] =~= s);
        assert(words(s) =~= seq![s]);
    }
}

/// White space alone has no words, and anything else has some.
pub proof fn lemma_blank_has_no_words(s: Seq<char>)
    ensures
        words(s).len() == 0 <==> forall|i: int| 0 <= i < s.len() ==> is_space(#[trigger] s[i]),
    decreases s.len(),
{
    if s.len() > 0 {
        let d = s.drop_last();
        lemma_blank_has_no_words(d);
        assert(s.last() == s[s.len() - 1]);
        assert(forall|i: int| 0 <= i < d.len() ==> d[i] == s[i]);
        if words(s).len() == 0 {
            assert(is_space(s.last()));
            assert forall|i: int| 0 <= i < s.len() implies is_space(#[trigger] s[i]) by {
                if i < d.len() {
                    assert(is_space(d[i]));
                }
            }
        } else if forall|i: int| 0 <= i < s.len() ==> is_space(#[trigger] s[i]) {
            assert(is_space(s[s.len() - 1]));
            assert(forall|i: int| 0 <= i < d.len() ==> is_space(#[trigger] d[i]));
        }
    }
}

}
