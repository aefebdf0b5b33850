//! Character-level text utilities shared by the parsers and renderers.
//!
//! The spec functions here state the meaning of the std string operations the
//! library relies on (`str::lines`, `str::split`, `str::split_whitespace`,
//! `str::trim`, `str::ends_with`, `str::eq_ignore_ascii_case`, `char::is_whitespace`)
//! over `Seq<char>`, and the exec functions implement them on character vectors.
use vstd::prelude::*;

verus! {

// ---------------------------------------------------------------------------
// Conversions between `&str` / `String` and `Vec<char>`.
// ---------------------------------------------------------------------------

/// Appends `c` to `s` (`String::push`).
#[verifier::external_body]
pub(crate) fn push_char(s: &mut String, c: char)
    ensures
        final(s)@ == old(s)@.push(c),
{
    s.push(c);
}

/// The characters of `s`, in order.
pub fn chars_of(s: &str) -> (v: Vec<char>)
    ensures
        v@ == s@,
{
    let mut v: Vec<char> = Vec::new();
    for c in it: s.chars()
        invariant
            v@ == it.seq().take(it.index() as int),
    {
        v.push(c);
    }
    v
}

/// The string made of the characters of `v`.
pub fn string_from_chars(v: &Vec<char>) -> (s: String)
    ensures
        s@ == v@,
{
    let mut s = String::new();
    let mut i: usize = 0;
    while i < v.len()
        invariant
            i <= v.len(),
            s@ == v@.take(i as int),
        decreases v.len() - i,
    {
        push_char(&mut s, v[i]);
        assert(v@.take(i as int).push(v@[i as int]) =~= v@.take(i + 1));
        i += 1;
    }
    assert(v@.take(v.len() as int) =~= v@);
    s
}

/// The views of a sequence of strings.
pub open spec fn string_views(v: Seq<String>) -> Seq<Seq<char>> {
    v.map_values(|s: String| s@)
}

/// The views of a sequence of character vectors.
pub open spec fn char_vec_views(v: Seq<Vec<char>>) -> Seq<Seq<char>> {
    v.map_values(|w: Vec<char>| w@)
}

pub proof fn lemma_char_vec_views_push(v: Seq<Vec<char>>, w: Vec<char>)
    ensures
        char_vec_views(v.push(w)) == char_vec_views(v).push(w@),
{
    assert(char_vec_views(v.push(w)) =~= char_vec_views(v).push(w@));
}

/// Converts character vectors to strings, one for one.
pub fn strings_from_char_vecs(v: &Vec<Vec<char>>) -> (r: Vec<String>)
    ensures
        r@.len() == v@.len(),
        forall|i: int| 0 <= i < v@.len() ==> #[trigger] r@[i]@ == v@[i]@,
{
    let mut r: Vec<String> = Vec::new();
    let mut i: usize = 0;
    while i < v.len()
        invariant
            i <= v.len(),
            r@.len() == i,
            forall|j: int| 0 <= j < i ==> #[trigger] r@[j]@ == v@[j]@,
        decreases v.len() - i,
    {
        let s = string_from_chars(&v[i]);
        r.push(s);
        i += 1;
    }
    r
}

// ---------------------------------------------------------------------------
// Searching.
// ---------------------------------------------------------------------------

/// Index of the first occurrence of `c` in `s`, or `s.len()` when there is none.
pub open spec fn find_char(s: Seq<char>, c: char) -> int
    decreases s.len(),
{
    if s.len() == 0 {
        0
    } else if s[0] == c {
        0
    } else {
        1 + find_char(s.drop_first(), c)
    }
}

pub proof fn lemma_find_char(s: Seq<char>, c: char)
    ensures
        0 <= find_char(s, c) <= s.len(),
        find_char(s, c) < s.len() ==> s[find_char(s, c)] == c,
        forall|j: int| 0 <= j < find_char(s, c) ==> s[j] != c,
    decreases s.len(),
{
    if s.len() > 0 && s[0] != c {
        lemma_find_char(s.drop_first(), c);
        assert forall|j: int| 0 <= j < find_char(s, c) implies s[j] != c by {
            if j > 0 {
                assert(s[j] == s.drop_first()[j - 1]);
            }
        }
    }
}

pub proof fn lemma_find_char_absent(s: Seq<char>, c: char)
    requires
        forall|j: int| 0 <= j < s.len() ==> s[j] != c,
    ensures
        find_char(s, c) == s.len(),
    decreases s.len(),
{
    if s.len() > 0 {
        lemma_find_char_absent(s.drop_first(), c);
    }
}

pub proof fn lemma_find_char_concat(a: Seq<char>, b: Seq<char>, c: char)
    requires
        forall|j: int| 0 <= j < a.len() ==> a[j] != c,
    ensures
        find_char(a + b, c) == a.len() + find_char(b, c),
    decreases a.len(),
{
    if a.len() > 0 {
        assert((a + b).drop_first() =~= a.drop_first() + b);
        lemma_find_char_concat(a.drop_first(), b, c);
    } else {
        assert(a + b =~= b);
    }
}

/// Index of the last occurrence of `c` in `s`, or `-1` when there is none.
pub open spec fn rfind_char(s: Seq<char>, c: char) -> int
    decreases s.len(),
{
    if s.len() == 0 {
        -1
    } else if s.last() == c {
        s.len() - 1
    } else {
        rfind_char(s.drop_last(), c)
    }
}

pub proof fn lemma_rfind_char(s: Seq<char>, c: char)
    ensures
        -1 <= rfind_char(s, c) < s.len(),
        rfind_char(s, c) >= 0 ==> s[rfind_char(s, c)] == c,
        forall|j: int| rfind_char(s, c) < j < s.len() ==> s[j] != c,
    decreases s.len(),
{
    if s.len() > 0 && s.last() != c {
        lemma_rfind_char(s.drop_last(), c);
        assert forall|j: int| rfind_char(s, c) < j < s.len() implies s[j] != c by {
            if j < s.len() - 1 {
                assert(s[j] == s.drop_last()[j]);
            }
        }
    }
}

/// Whether `s` contains `c`.
pub open spec fn has_char(s: Seq<char>, c: char) -> bool {
    exists|j: int| 0 <= j < s.len() && s[j] == c
}

/// Index of the last occurrence of `c` in `s`.
pub fn rfind_char_exec(s: &Vec<char>, c: char) -> (r: Option<usize>)
    ensures
        match r {
            Some(i) => i as int == rfind_char(s@, c),
            None => rfind_char(s@, c) == -1,
        },
{
    let mut i: usize = s.len();
    assert(s@.take(i as int) =~= s@);
    while i > 0
        invariant
            i <= s.len(),
            rfind_char(s@, c) == rfind_char(s@.take(i as int), c),
        decreases i,
    {
        assert(s@.take(i as int).last() == s@[i - 1]);
        if s[i - 1] == c {
            return Some(i - 1);
        }
        assert(s@.take(i as int).drop_last() =~= s@.take(i - 1));
        i -= 1;
    }
    None
}

/// Whether `s` contains `c`.
pub fn has_char_exec(s: &Vec<char>, c: char) -> (b: bool)
    ensures
        b == has_char(s@, c),
{
    let mut i: usize = 0;
    while i < s.len()
        invariant
            i <= s.len(),
            forall|j: int| 0 <= j < i ==> s@[j] != c,
        decreases s.len() - i,
    {
        if s[i] == c {
            return true;
        }
        i += 1;
    }
    false
}

// ---------------------------------------------------------------------------
// Whitespace (`char::is_whitespace`: the Unicode `White_Space` property).
// ---------------------------------------------------------------------------

pub open spec fn is_whitespace(c: char) -> bool {
    let u = c as u32;
    ||| 0x09 <= u <= 0x0D
    ||| u == 0x20
    ||| u == 0x85
    ||| u == 0xA0
    ||| u == 0x1680
    ||| 0x2000 <= u <= 0x200A
    ||| u == 0x2028
    ||| u == 0x2029
    ||| u == 0x202F
    ||| u == 0x205F
    ||| u == 0x3000
}

pub fn is_whitespace_exec(c: char) -> (b: bool)
    ensures
        b == is_whitespace(c),
{
    let u = c as u32;
    (0x09 <= u && u <= 0x0D) || u == 0x20 || u == 0x85 || u == 0xA0 || u == 0x1680 || (0x2000
        <= u && u <= 0x200A) || u == 0x2028 || u == 0x2029 || u == 0x202F || u == 0x205F || u
        == 0x3000
}


// ---------------------------------------------------------------------------
// `str::lines`.
// ---------------------------------------------------------------------------

/// A line without its carriage return, if it ends with one.
pub open spec fn strip_cr(l: Seq<char>) -> Seq<char> {
    if l.len() > 0 && l.last() == '\r' {
        l.drop_last()
    } else {
        l
    }
}

/// The lines of `s` as `str::lines` yields them: the text is cut after each
/// `\n`; the `\n` and a `\r` just before it are dropped; a last line without
/// a final `\n` is kept as it is, and an empty remainder yields no line.
pub open spec fn lines(s: Seq<char>) -> Seq<Seq<char>>
    decreases s.len(),
{
    if s.len() == 0 {
        seq![]
    } else {
        let i = find_char(s, '\n');
        if i >= s.len() {
            seq![s]
        } else {
            proof {
                lemma_find_char(s, '\n');
            }
            seq![strip_cr(s.take(i))] + lines(s.skip(i + 1))
        }
    }
}

fn strip_cr_exec(l: &mut Vec<char>)
    ensures
        final(l)@ == strip_cr(old(l)@),
{
    if l.len() > 0 && l[l.len() - 1] == '\r' {
        l.pop();
        assert(l@ =~= strip_cr(old(l)@));
    }
}

/// The lines of `s` (`str::lines`).
pub fn lines_exec(s: &Vec<char>) -> (r: Vec<Vec<char>>)
    ensures
        char_vec_views(r@) == lines(s@),
{
    let mut r: Vec<Vec<char>> = Vec::new();
    let mut cur: Vec<char> = Vec::new();
    let mut i: usize = 0;
    assert(s@.skip(0) =~= s@);
    assert(cur@ + s@ =~= s@);
    assert(char_vec_views(r@) =~= Seq::<Seq<char>>::empty());
    while i < s.len()
        invariant
            i <= s.len(),
            forall|j: int| 0 <= j < cur@.len() ==> cur@[j] != '\n',
            lines(s@) == char_vec_views(r@) + lines(cur@ + s@.skip(i as int)),
        decreases s.len() - i,
    {
        let c = s[i];
        let ghost t = s@.skip(i as int);
        if c == '\n' {
            proof {
                lemma_find_char_concat(cur@, t, '\n');
                assert((cur@ + t).take(cur@.len() as int) =~= cur@);
                assert((cur@ + t).skip(cur@.len() as int + 1) =~= s@.skip(i + 1));
            }
            let mut line = cur;
            strip_cr_exec(&mut line);
            proof {
                lemma_char_vec_views_push(r@, line);
            }
            r.push(line);
            cur = Vec::new();
            assert(cur@ + s@.skip(i + 1) =~= s@.skip(i + 1));
        } else {
            let ghost prev = cur@;
            cur.push(c);
            assert(prev + t =~= cur@ + s@.skip(i + 1)) by {
                assert(t =~= seq![c] + s@.skip(i + 1));
            }
        }
        i += 1;
    }
    assert(cur@ + s@.skip(i as int) =~= cur@);
    if cur.len() > 0 {
        proof {
            lemma_find_char_absent(cur@, '\n');
            lemma_char_vec_views_push(r@, cur);
        }
        r.push(cur);
        assert(char_vec_views(r@) =~= lines(s@));
    } else {
        assert(char_vec_views(r@) =~= lines(s@));
    }
    r
}


// ---------------------------------------------------------------------------
// `str::split` on a single character.
// ---------------------------------------------------------------------------

/// The pieces of `s` between occurrences of `c` (`str::split(c)`): always at
/// least one piece, empty pieces included.
pub open spec fn split_char(s: Seq<char>, c: char) -> Seq<Seq<char>>
    decreases s.len(),
{
    let i = find_char(s, c);
    if i >= s.len() {
        seq![s]
    } else {
        proof {
            lemma_find_char(s, c);
        }
        seq![s.take(i)] + split_char(s.skip(i + 1), c)
    }
}

/// Splitting at a separator that comes after `a`, where `b` holds no
/// separator, gives the pieces of `a` and then `b`.
pub proof fn lemma_split_char_last(a: Seq<char>, b: Seq<char>, c: char)
    requires
        forall|j: int| 0 <= j < b.len() ==> b[j] != c,
    ensures
        split_char(a + seq![c] + b, c) == split_char(a, c).push(b),
    decreases a.len(),
{
    let s = a + seq![c] + b;
    lemma_find_char(a, c);
    let i = find_char(a, c);
    if i < a.len() {
        let rest = a.skip(i) + seq![c] + b;
        assert(s =~= a.take(i) + rest);
        assert forall|j: int| 0 <= j < a.take(i).len() implies a.take(i)[j] != c by {}
        lemma_find_char_concat(a.take(i), rest, c);
        assert(rest[0] == c);
        assert(find_char(rest, c) == 0);
        assert(find_char(s, c) == i);
        assert(s.take(i) =~= a.take(i));
        assert(s.skip(i + 1) =~= a.skip(i + 1) + seq![c] + b);
        lemma_split_char_last(a.skip(i + 1), b, c);
        assert(split_char(s, c) == seq![a.take(i)] + split_char(a.skip(i + 1), c).push(b));
        assert(split_char(a, c) == seq![a.take(i)] + split_char(a.skip(i + 1), c));
        assert(split_char(s, c) =~= split_char(a, c).push(b));
    } else {
        assert forall|j: int| 0 <= j < a.len() implies a[j] != c by {}
        assert(s =~= a + (seq![c] + b));
        lemma_find_char_concat(a, seq![c] + b, c);
        assert((seq![c] + b)[0] == c);
        assert(find_char(seq![c] + b, c) == 0);
        assert(find_char(s, c) == a.len());
        assert(s.take(a.len() as int) =~= a);
        assert(s.skip(a.len() as int + 1) =~= b);
        lemma_find_char_absent(b, c);
        assert(split_char(b, c) == seq![b]);
        assert(split_char(s, c) =~= seq![a] + seq![b]);
        assert(split_char(a, c) == seq![a]);
        assert(split_char(s, c) =~= split_char(a, c).push(b));
    }
}

/// Joining pieces that hold no separator and splitting the result at that
/// separator gives the pieces back.
pub proof fn lemma_split_join(parts: Seq<Seq<char>>, c: char)
    requires
        parts.len() > 0,
        forall|i: int, j: int| 0 <= i < parts.len() && 0 <= j < parts[i].len() ==> #[trigger] parts[i][j] != c,
    ensures
        split_char(join(parts, seq![c]), c) == parts,
    decreases parts.len(),
{
    if parts.len() == 1 {
        assert forall|j: int| 0 <= j < parts[0].len() implies parts[0][j] != c by {
            assert(parts[0][j] != c);
        }
        lemma_find_char_absent(parts[0], c);
        assert(split_char(parts[0], c) =~= parts);
    } else {
        let init = parts.drop_last();
        assert forall|i: int, j: int| 0 <= i < init.len() && 0 <= j < init[i].len() implies #[trigger] init[i][j] != c by {
            assert(init[i] == parts[i]);
            assert(parts[i][j] != c);
        }
        lemma_split_join(init, c);
        assert forall|j: int| 0 <= j < parts.last().len() implies parts.last()[j] != c by {
            assert(parts[parts.len() - 1][j] != c);
        }
        lemma_split_char_last(join(init, seq![c]), parts.last(), c);
        assert(init.push(parts.last()) =~= parts);
    }
}

/// The pieces of `s` between occurrences of `sep` (`str::split`).
pub fn split_char_exec(s: &Vec<char>, sep: char) -> (r: Vec<Vec<char>>)
    ensures
        char_vec_views(r@) == split_char(s@, sep),
{
    let mut r: Vec<Vec<char>> = Vec::new();
    let mut cur: Vec<char> = Vec::new();
    let mut i: usize = 0;
    assert(cur@ + s@.skip(0) =~= s@);
    assert(char_vec_views(r@) =~= Seq::<Seq<char>>::empty());
    while i < s.len()
        invariant
            i <= s.len(),
            forall|j: int| 0 <= j < cur@.len() ==> cur@[j] != sep,
            split_char(s@, sep) == char_vec_views(r@) + split_char(cur@ + s@.skip(i as int), sep),
        decreases s.len() - i,
    {
        let c = s[i];
        let ghost t = s@.skip(i as int);
        if c == sep {
            proof {
                lemma_find_char_concat(cur@, t, sep);
                assert((cur@ + t).take(cur@.len() as int) =~= cur@);
                assert((cur@ + t).skip(cur@.len() as int + 1) =~= s@.skip(i + 1));
                lemma_char_vec_views_push(r@, cur);
            }
            r.push(cur);
            cur = Vec::new();
            assert(cur@ + s@.skip(i + 1) =~= s@.skip(i + 1));
        } else {
            let ghost prev = cur@;
            cur.push(c);
            assert(prev + t =~= cur@ + s@.skip(i + 1)) by {
                assert(t =~= seq![c] + s@.skip(i + 1));
            }
        }
        i += 1;
    }
    assert(cur@ + s@.skip(i as int) =~= cur@);
    proof {
        lemma_find_char_absent(cur@, sep);
        lemma_char_vec_views_push(r@, cur);
    }
    r.push(cur);
    assert(char_vec_views(r@) =~= split_char(s@, sep));
    r
}

// ---------------------------------------------------------------------------
// `str::split_whitespace`.
// ---------------------------------------------------------------------------

/// Index of the first whitespace character of `s`, or `s.len()`.
pub open spec fn find_whitespace(s: Seq<char>) -> int
    decreases s.len(),
{
    if s.len() == 0 {
        0
    } else if is_whitespace(s[0]) {
        0
    } else {
        1 + find_whitespace(s.drop_first())
    }
}

pub proof fn lemma_find_whitespace(s: Seq<char>)
    ensures
        0 <= find_whitespace(s) <= s.len(),
        s.len() > 0 && !is_whitespace(s[0]) ==> find_whitespace(s) >= 1,
    decreases s.len(),
{
    if s.len() > 0 && !is_whitespace(s[0]) {
        lemma_find_whitespace(s.drop_first());
    }
}

pub proof fn lemma_find_whitespace_concat(a: Seq<char>, b: Seq<char>)
    requires
        forall|j: int| 0 <= j < a.len() ==> !is_whitespace(a[j]),
    ensures
        find_whitespace(a + b) == a.len() + find_whitespace(b),
    decreases a.len(),
{
    if a.len() > 0 {
        assert((a + b).drop_first() =~= a.drop_first() + b);
        lemma_find_whitespace_concat(a.drop_first(), b);
    } else {
        assert(a + b =~= b);
    }
}

/// The maximal runs of non-whitespace characters of `s`, in order
/// (`str::split_whitespace`).
pub open spec fn words(s: Seq<char>) -> Seq<Seq<char>>
    decreases s.len(),
{
    if s.len() == 0 {
        seq![]
    } else if is_whitespace(s[0]) {
        words(s.drop_first())
    } else {
        let k = find_whitespace(s);
        proof {
            lemma_find_whitespace(s);
        }
        seq![s.take(k)] + words(s.skip(k))
    }
}

proof fn lemma_words_word(cur: Seq<char>, t: Seq<char>)
    requires
        cur.len() > 0,
        forall|j: int| 0 <= j < cur.len() ==> !is_whitespace(cur[j]),
        t.len() == 0 || is_whitespace(t[0]),
    ensures
        words(cur + t) == seq![cur] + words(t),
{
    lemma_find_whitespace_concat(cur, t);
    assert((cur + t)[0] == cur[0]);
    if t.len() == 0 {
        assert(find_whitespace(t) == 0);
    }
    assert((cur + t).take(cur.len() as int) =~= cur);
    assert((cur + t).skip(cur.len() as int) =~= t);
}

/// The whitespace-separated words of `s` (`str::split_whitespace`).
pub fn split_whitespace_exec(s: &Vec<char>) -> (r: Vec<Vec<char>>)
    ensures
        char_vec_views(r@) == words(s@),
{
    let mut r: Vec<Vec<char>> = Vec::new();
    let mut cur: Vec<char> = Vec::new();
    let mut i: usize = 0;
    assert(cur@ + s@.skip(0) =~= s@);
    assert(char_vec_views(r@) =~= Seq::<Seq<char>>::empty());
    while i < s.len()
        invariant
            i <= s.len(),
            forall|j: int| 0 <= j < cur@.len() ==> !is_whitespace(#[trigger] cur@[j]),
            words(s@) == char_vec_views(r@) + words(cur@ + s@.skip(i as int)),
        decreases s.len() - i,
    {
        let c = s[i];
        let ghost t = s@.skip(i as int);
        if is_whitespace_exec(c) {
            assert(t.drop_first() =~= s@.skip(i + 1));
            if cur.len() > 0 {
                proof {
                    lemma_words_word(cur@, t);
                    lemma_char_vec_views_push(r@, cur);
                }
                r.push(cur);
                cur = Vec::new();
                assert(char_vec_views(r@) + words(t) =~= char_vec_views(r@) + words(
                    s@.skip(i + 1),
                ));
            } else {
                assert(cur@ + t =~= t);
            }
            assert(cur@ + s@.skip(i + 1) =~= s@.skip(i + 1));
        } else {
            let ghost prev = cur@;
            cur.push(c);
            assert(prev + t =~= cur@ + s@.skip(i + 1)) by {
                assert(t =~= seq![c] + s@.skip(i + 1));
            }
        }
        i += 1;
    }
    assert(cur@ + s@.skip(i as int) =~= cur@);
    if cur.len() > 0 {
        proof {
            lemma_words_word(cur@, Seq::<char>::empty());
            assert(cur@ + Seq::<char>::empty() =~= cur@);
            lemma_char_vec_views_push(r@, cur);
        }
        r.push(cur);
    }
    assert(char_vec_views(r@) =~= words(s@));
    r
}

// ---------------------------------------------------------------------------
// `str::trim`.
// ---------------------------------------------------------------------------

pub open spec fn trim_start(s: Seq<char>) -> Seq<char>
    decreases s.len(),
{
    if s.len() > 0 && is_whitespace(s[0]) {
        trim_start(s.drop_first())
    } else {
        s
    }
}

pub open spec fn trim_end(s: Seq<char>) -> Seq<char>
    decreases s.len(),
{
    if s.len() > 0 && is_whitespace(s.last()) {
        trim_end(s.drop_last())
    } else {
        s
    }
}

/// `s` without leading and trailing whitespace (`str::trim`).
pub open spec fn trim(s: Seq<char>) -> Seq<char> {
    trim_end(trim_start(s))
}

/// `s` without leading and trailing whitespace (`str::trim`).
pub fn trim_exec(s: &Vec<char>) -> (r: Vec<char>)
    ensures
        r@ == trim(s@),
{
    let mut i: usize = 0;
    assert(s@.skip(0) =~= s@);
    while i < s.len() && is_whitespace_exec(s[i])
        invariant
            i <= s.len(),
            trim_start(s@) == trim_start(s@.skip(i as int)),
        decreases s.len() - i,
    {
        assert(s@.skip(i as int).drop_first() =~= s@.skip(i + 1));
        i += 1;
    }
    let ghost start = s@.skip(i as int);
    assert(trim_start(start) == start);
    let mut j: usize = s.len();
    assert(s@.subrange(i as int, j as int) =~= start);
    while j > i && is_whitespace_exec(s[j - 1])
        invariant
            i <= j <= s.len(),
            trim_end(start) == trim_end(s@.subrange(i as int, j as int)),
        decreases j,
    {
        assert(s@.subrange(i as int, j as int).drop_last() =~= s@.subrange(i as int, j - 1));
        j -= 1;
    }
    let mut r: Vec<char> = Vec::new();
    let mut k: usize = i;
    while k < j
        invariant
            i <= k <= j,
            j <= s.len(),
            r@ =~= s@.subrange(i as int, k as int),
        decreases j - k,
    {
        r.push(s[k]);
        k += 1;
    }
    r
}

// ---------------------------------------------------------------------------
// Suffixes, ASCII case folding, joining.
// ---------------------------------------------------------------------------

/// Whether `s` ends with `suffix` (`str::ends_with`).
pub open spec fn ends_with(s: Seq<char>, suffix: Seq<char>) -> bool {
    suffix.len() <= s.len() && s.skip(s.len() - suffix.len()) == suffix
}

pub fn ends_with_exec(s: &Vec<char>, suffix: &Vec<char>) -> (b: bool)
    ensures
        b == ends_with(s@, suffix@),
{
    if suffix.len() > s.len() {
        return false;
    }
    let off = s.len() - suffix.len();
    let mut i: usize = 0;
    while i < suffix.len()
        invariant
            off + suffix.len() == s.len(),
            i <= suffix.len(),
            forall|j: int| 0 <= j < i ==> s@[off + j] == suffix@[j],
        decreases suffix.len() - i,
    {
        if s[off + i] != suffix[i] {
            assert(s@.skip(off as int)[i as int] != suffix@[i as int]);
            return false;
        }
        i += 1;
    }
    assert(s@.skip(off as int) =~= suffix@);
    true
}

/// The code of `c` after ASCII lower-casing (`u8::to_ascii_lowercase` on ASCII
/// letters; every other character is unchanged).
pub open spec fn ascii_lower_code(c: char) -> u32 {
    let u = c as u32;
    if 0x41 <= u <= 0x5A {
        (u + 0x20) as u32
    } else {
        u
    }
}

/// ASCII case-insensitive equality (`str::eq_ignore_ascii_case`).
pub open spec fn eq_ignore_ascii_case(a: Seq<char>, b: Seq<char>) -> bool {
    a.len() == b.len() && forall|i: int|
        0 <= i < a.len() ==> #[trigger] ascii_lower_code(a[i]) == ascii_lower_code(b[i])
}

pub fn ascii_lower_code_exec(c: char) -> (u: u32)
    ensures
        u == ascii_lower_code(c),
{
    let u = c as u32;
    if 0x41 <= u && u <= 0x5A {
        u + 0x20
    } else {
        u
    }
}

pub fn eq_ignore_ascii_case_exec(a: &Vec<char>, b: &Vec<char>) -> (r: bool)
    ensures
        r == eq_ignore_ascii_case(a@, b@),
{
    if a.len() != b.len() {
        return false;
    }
    let mut i: usize = 0;
    while i < a.len()
        invariant
            a.len() == b.len(),
            i <= a.len(),
            forall|j: int| 0 <= j < i ==> #[trigger] ascii_lower_code(a@[j]) == ascii_lower_code(
                b@[j],
            ),
        decreases a.len() - i,
    {
        if ascii_lower_code_exec(a[i]) != ascii_lower_code_exec(b[i]) {
            return false;
        }
        i += 1;
    }
    true
}

/// The parts joined with `sep` between consecutive parts (`[T]::join`).
pub open spec fn join(parts: Seq<Seq<char>>, sep: Seq<char>) -> Seq<char>
    decreases parts.len(),
{
    if parts.len() == 0 {
        seq![]
    } else if parts.len() == 1 {
        parts[0]
    } else {
        join(parts.drop_last(), sep) + sep + parts.last()
    }
}

/// Appends the characters of `src` to `dst`.
pub fn append_chars(dst: &mut Vec<char>, src_exec: &Vec<char>)
    ensures
        final(dst)@ == old(dst)@ + src_exec@,
{
    let mut i: usize = 0;
    while i < src_exec.len()
        invariant
            i <= src_exec.len(),
            dst@ == old(dst)@ + src_exec@.take(i as int),
        decreases src_exec.len() - i,
    {
        dst.push(src_exec[i]);
        assert(old(dst)@ + src_exec@.take(i + 1) =~= old(dst)@ + src_exec@.take(i as int) + seq![
            src_exec@[i as int],
        ]);
        i += 1;
    }
    assert(src_exec@.take(src_exec.len() as int) =~= src_exec@);
}

/// The strings of `parts` joined with `sep` (`[String]::join`).
pub fn join_exec(parts: &Vec<String>, sep: &str) -> (r: String)
    ensures
        r@ == join(string_views(parts@), sep@),
{
    let ghost pv = string_views(parts@);
    let sep_chars = chars_of(sep);
    let mut acc: Vec<char> = Vec::new();
    let mut i: usize = 0;
    while i < parts.len()
        invariant
            i <= parts.len(),
            pv == string_views(parts@),
            sep_chars@ == sep@,
            acc@ == join(pv.take(i as int), sep@),
        decreases parts.len() - i,
    {
        let part = chars_of(parts[i].as_str());
        if i > 0 {
            append_chars(&mut acc, &sep_chars);
        }
        assert(part@ == pv[i as int]);
        append_chars(&mut acc, &part);
        assert(pv.take(i + 1).drop_last() =~= pv.take(i as int));
        if i == 0 {
            assert(acc@ =~= join(pv.take(1), sep@));
        }
        i += 1;
    }
    assert(pv.take(parts.len() as int) =~= pv);
    string_from_chars(&acc)
}


/// Whether two character vectors hold the same characters.
pub fn chars_eq(a: &Vec<char>, b: &Vec<char>) -> (r: bool)
    ensures
        r == (a@ == b@),
{
    if a.len() != b.len() {
        return false;
    }
    let mut i: usize = 0;
    while i < a.len()
        invariant
            a.len() == b.len(),
            i <= a.len(),
            forall|j: int| 0 <= j < i ==> a@[j] == b@[j],
        decreases a.len() - i,
    {
        if a[i] != b[i] {
            return false;
        }
        i += 1;
    }
    assert(a@ =~= b@);
    true
}

/// Whether two strings hold the same characters.
pub fn str_eq(a: &str, b: &str) -> (r: bool)
    ensures
        r == (a@ == b@),
{
    let x = chars_of(a);
    let y = chars_of(b);
    chars_eq(&x, &y)
}

} // verus!
