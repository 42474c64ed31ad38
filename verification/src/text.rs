//! Character-level text helpers shared by the parsers and formatters.

use vstd::prelude::*;

verus! {

broadcast use vstd::string::group_string_axioms;

/// Appends one character to a string.
#[verifier::external_body]
pub(crate) fn push_char(s: &mut String, c: char)
    ensures
        final(s)@ == old(s)@.push(c),
{
    s.push(c);
}

/// The characters of `s`, in order.
pub fn chars_of(s: &str) -> (out: Vec<char>)
    ensures
        out@ == s@,
{
    let mut out: Vec<char> = Vec::new();
    for c in it: s.chars()
        invariant
            out@ == it.seq().take(it.index() as int),
            it.seq() == s@,
    {
        out.push(c);
    }
    out
}

/// A string holding exactly the given characters.
pub fn string_of(cs: &Vec<char>) -> (out: String)
    ensures
        out@ == cs@,
{
    let mut out = String::new();
    let mut i: usize = 0;
    while i < cs.len()
        invariant
            i <= cs.len(),
            out@ == cs@.take(i as int),
        decreases cs.len() - i,
    {
        push_char(&mut out, cs[i]);
        assert(cs@.take(i as int).push(cs@[i as int]) =~= cs@.take(i + 1));
        i += 1;
    }
    assert(cs@.take(cs.len() as int) =~= cs@);
    out
}

/// Unicode `White_Space`, as `char::is_whitespace` decides it.
pub open spec fn is_space(c: char) -> bool {
    ('\u{9}' <= c && c <= '\u{d}') || c == ' ' || c == '\u{85}' || c == '\u{a0}' || c
        == '\u{1680}' || ('\u{2000}' <= c && c <= '\u{200a}') || c == '\u{2028}' || c
        == '\u{2029}' || c == '\u{202f}' || c == '\u{205f}' || c == '\u{3000}'
}

/// Whether `c` is whitespace.
pub fn char_is_space(c: char) -> (r: bool)
    ensures
        r == is_space(c),
{
    ('\u{9}' <= c && c <= '\u{d}') || c == ' ' || c == '\u{85}' || c == '\u{a0}' || c
        == '\u{1680}' || ('\u{2000}' <= c && c <= '\u{200a}') || c == '\u{2028}' || c
        == '\u{2029}' || c == '\u{202f}' || c == '\u{205f}' || c == '\u{3000}'
}

/// `s` without leading whitespace.
pub open spec fn trim_start(s: Seq<char>) -> Seq<char>
    decreases s.len(),
{
    if s.len() > 0 && is_space(s[0]) {
        trim_start(s.drop_first())
    } else {
        s
    }
}

/// `s` without trailing whitespace.
pub open spec fn trim_end(s: Seq<char>) -> Seq<char>
    decreases s.len(),
{
    if s.len() > 0 && is_space(s.last()) {
        trim_end(s.drop_last())
    } else {
        s
    }
}

/// `s` without leading and trailing whitespace, as `str::trim` gives it.
pub open spec fn trim(s: Seq<char>) -> Seq<char> {
    trim_end(trim_start(s))
}

/// `c` with an ASCII lowercase letter made uppercase.
pub open spec fn upper_char(c: char) -> char {
    if 'a' <= c && c <= 'z' {
        ((c as u32) - 32) as char
    } else {
        c
    }
}

/// `s` with every ASCII lowercase letter made uppercase, as `str::to_ascii_uppercase` gives it.
pub open spec fn upper(s: Seq<char>) -> Seq<char> {
    s.map_values(|c: char| upper_char(c))
}

/// The trimmed, ASCII-uppercased form under which symbols are compared.
pub open spec fn symbol_key(s: Seq<char>) -> Seq<char> {
    upper(trim(s))
}

/// The characters of `s` without leading and trailing whitespace.
pub fn trimmed(s: &Vec<char>) -> (out: Vec<char>)
    ensures
        out@ == trim(s@),
{
    let mut start: usize = 0;
    assert(s@.subrange(0, s.len() as int) =~= s@);
    while start < s.len() && char_is_space(s[start])
        invariant
            start <= s.len(),
            trim_start(s@) == trim_start(s@.subrange(start as int, s.len() as int)),
        decreases s.len() - start,
    {
        assert(s@.subrange(start as int, s.len() as int).drop_first() =~= s@.subrange(
            start + 1,
            s.len() as int,
        ));
        start += 1;
    }
    assert(s@.subrange(start as int, s.len() as int) == trim_start(s@)) by {
        let rest = s@.subrange(start as int, s.len() as int);
        if rest.len() > 0 {
            assert(rest[0] == s@[start as int]);
        }
    }
    let mut end: usize = s.len();
    while end > start && char_is_space(s[end - 1])
        invariant
            start <= end <= s.len(),
            s@.subrange(start as int, s.len() as int) == trim_start(s@),
            trim_end(trim_start(s@)) == trim_end(s@.subrange(start as int, end as int)),
        decreases end - start,
    {
        assert(s@.subrange(start as int, end as int).drop_last() =~= s@.subrange(
            start as int,
            end - 1,
        ));
        end -= 1;
    }
    let mut out: Vec<char> = Vec::new();
    let mut i: usize = start;
    while i < end
        invariant
            start <= i <= end <= s.len(),
            out@ == s@.subrange(start as int, i as int),
        decreases end - i,
    {
        out.push(s[i]);
        assert(s@.subrange(start as int, i as int).push(s@[i as int]) =~= s@.subrange(
            start as int,
            i + 1,
        ));
        i += 1;
    }
    proof {
        let rest = s@.subrange(start as int, end as int);
        if rest.len() > 0 {
            assert(rest.last() == s@[end - 1]);
        }
        assert(trim_end(rest) == rest);
    }
    out
}

/// `c` with an ASCII lowercase letter made uppercase.
pub fn char_upper(c: char) -> (r: char)
    ensures
        r == upper_char(c),
{
    if 'a' <= c && c <= 'z' {
        ((c as u8) - 32) as char
    } else {
        c
    }
}

/// The characters of `s` with ASCII lowercase letters made uppercase.
pub fn uppercased(s: &Vec<char>) -> (out: Vec<char>)
    ensures
        out@ == upper(s@),
{
    let mut out: Vec<char> = Vec::new();
    let mut i: usize = 0;
    while i < s.len()
        invariant
            i <= s.len(),
            out@ == upper(s@.take(i as int)),
        decreases s.len() - i,
    {
        out.push(char_upper(s[i]));
        assert(upper(s@.take(i as int)).push(upper_char(s@[i as int])) =~= upper(
            s@.take(i + 1),
        ));
        i += 1;
    }
    assert(s@.take(s.len() as int) =~= s@);
    out
}

/// The symbol key (trimmed, ASCII-uppercased) of a string.
pub fn symbol_key_of(s: &str) -> (out: Vec<char>)
    ensures
        out@ == symbol_key(s@),
{
    let cs = chars_of(s);
    let t = trimmed(&cs);
    uppercased(&t)
}

/// The trimmed characters of a string.
pub fn trimmed_of(s: &str) -> (out: Vec<char>)
    ensures
        out@ == trim(s@),
{
    let cs = chars_of(s);
    trimmed(&cs)
}

/// Whether two character sequences are equal.
pub fn same_chars(a: &Vec<char>, b: &Vec<char>) -> (r: bool)
    ensures
        r == (a@ == b@),
{
    if a.len() != b.len() {
        return false;
    }
    let mut i: usize = 0;
    while i < a.len()
        invariant
            i <= a.len() == b.len(),
            forall|j: int| 0 <= j < i ==> a@[j] == b@[j],
        decreases a.len() - i,
    {
        if a[i] != b[i] {
            return false;
        }
        i += 1;
    }
    assert(a@ =~= b@);
    true
}

/// A string holding the text of `s`.
pub fn owned(s: &str) -> (out: String)
    ensures
        out@ == s@,
{
    String::from_str(s)
}

/// `a` followed by `b`.
pub fn joined(a: &str, b: &str) -> (out: String)
    ensures
        out@ == a@ + b@,
{
    let mut out = String::from_str(a);
    out.append(b);
    out
}

/// `i` is the first position of `c` in `t`.
pub open spec fn is_first(t: Seq<char>, c: char, i: int) -> bool {
    0 <= i < t.len() && t[i] == c && forall|j: int| 0 <= j < i ==> t[j] != c
}

/// The first position of `c` in `t`, if any.
pub open spec fn first_index(t: Seq<char>, c: char) -> Option<int> {
    if exists|i: int| is_first(t, c, i) {
        Some(choose|i: int| is_first(t, c, i))
    } else {
        None
    }
}

/// The first position of `c` in `t` is unique.
pub proof fn lemma_first_unique(t: Seq<char>, c: char, i: int, k: int)
    requires
        is_first(t, c, i),
        is_first(t, c, k),
    ensures
        i == k,
{
    if i < k {
        assert(t[i] != c);
    } else if k < i {
        assert(t[k] != c);
    }
}

/// `first_index` is the position found by a scan.
pub proof fn lemma_first_index(t: Seq<char>, c: char, i: int)
    requires
        is_first(t, c, i),
    ensures
        first_index(t, c) == Some(i),
{
    let k = choose|k: int| is_first(t, c, k);
    lemma_first_unique(t, c, i, k);
}

/// When `c` does not occur in `t`, `first_index` is `None`.
pub proof fn lemma_first_index_none(t: Seq<char>, c: char)
    requires
        forall|j: int| 0 <= j < t.len() ==> t[j] != c,
    ensures
        first_index(t, c) is None,
{
    if exists|i: int| is_first(t, c, i) {
        let k = choose|k: int| is_first(t, c, k);
        assert(t[k] == c);
    }
}

/// The first position of `c` in `t`.
pub fn find_char(t: &Vec<char>, c: char) -> (r: Option<usize>)
    ensures
        r matches Some(i) ==> first_index(t@, c) == Some(i as int),
        r is None ==> first_index(t@, c) is None,
        r is None <==> !t@.contains(c),
{
    let mut i: usize = 0;
    while i < t.len()
        invariant
            i <= t.len(),
            forall|j: int| 0 <= j < i ==> t@[j] != c,
        decreases t.len() - i,
    {
        if t[i] == c {
            proof {
                lemma_first_index(t@, c, i as int);
            }
            return Some(i);
        }
        i += 1;
    }
    proof {
        lemma_first_index_none(t@, c);
    }
    None
}

/// The characters of `t` from `start` up to `end`.
pub fn slice_chars(t: &Vec<char>, start: usize, end: usize) -> (out: Vec<char>)
    requires
        start <= end <= t.len(),
    ensures
        out@ == t@.subrange(start as int, end as int),
{
    let mut out: Vec<char> = Vec::new();
    let mut i: usize = start;
    while i < end
        invariant
            start <= i <= end <= t.len(),
            out@ == t@.subrange(start as int, i as int),
        decreases end - i,
    {
        out.push(t[i]);
        assert(t@.subrange(start as int, i as int).push(t@[i as int]) =~= t@.subrange(
            start as int,
            i + 1,
        ));
        i += 1;
    }
    out
}

/// Appends the characters of `more` to `out`.
pub fn extend_chars(out: &mut Vec<char>, more: &Vec<char>)
    ensures
        final(out)@ == old(out)@ + more@,
{
    let mut i: usize = 0;
    while i < more.len()
        invariant
            i <= more.len(),
            out@ == old(out)@ + more@.take(i as int),
        decreases more.len() - i,
    {
        out.push(more[i]);
        assert(old(out)@ + more@.take(i as int).push(more@[i as int]) =~= old(out)@ + more@.take(
            i + 1,
        ));
        i += 1;
    }
    assert(more@.take(more.len() as int) =~= more@);
}

/// `n` copies of `c`.
pub open spec fn repeat_char(c: char, n: nat) -> Seq<char> {
    Seq::new(n, |i: int| c)
}

/// Joins `parts` with `sep` between neighbours.
pub open spec fn join(parts: Seq<Seq<char>>, sep: Seq<char>) -> Seq<char>
    decreases parts.len(),
{
    if parts.len() == 0 {
        Seq::empty()
    } else if parts.len() == 1 {
        parts[0]
    } else {
        join(parts.drop_last(), sep) + sep + parts.last()
    }
}

/// The views of a list of strings.
pub open spec fn texts(v: Seq<String>) -> Seq<Seq<char>> {
    v.map_values(|s: String| s@)
}

/// Joins strings with a separator, as `[String]::join` does.
pub fn join_strings(parts: &Vec<String>, sep: &str) -> (out: String)
    ensures
        out@ == join(texts(parts@), sep@),
{
    let mut out = String::new();
    let mut i: usize = 0;
    while i < parts.len()
        invariant
            i <= parts.len(),
            out@ == join(texts(parts@).take(i as int), sep@),
        decreases parts.len() - i,
    {
        let ghost before = texts(parts@).take(i as int);
        if i > 0 {
            out.append(sep);
        }
        out.append(parts[i].as_str());
        proof {
            let after = texts(parts@).take(i + 1);
            assert(after.drop_last() =~= before);
            assert(after.last() == parts@[i as int]@);
            if i == 0 {
                assert(before.len() == 0);
                assert(after.len() == 1);
                assert(out@ =~= after[0]);
            }
        }
        i += 1;
    }
    assert(texts(parts@).take(parts.len() as int) =~= texts(parts@));
    out
}


/// `i` is the last position of `c` in `t`.
pub open spec fn is_last(t: Seq<char>, c: char, i: int) -> bool {
    0 <= i < t.len() && t[i] == c && forall|j: int| i < j < t.len() ==> t[j] != c
}

/// The last position of `c` in `t`, if any.
pub open spec fn last_index(t: Seq<char>, c: char) -> Option<int> {
    if exists|i: int| is_last(t, c, i) {
        Some(choose|i: int| is_last(t, c, i))
    } else {
        None
    }
}

/// The last position of `c` in `t` is unique.
pub proof fn lemma_last_index(t: Seq<char>, c: char, i: int)
    requires
        is_last(t, c, i),
    ensures
        last_index(t, c) == Some(i),
{
    let k = choose|k: int| is_last(t, c, k);
    if i < k {
        assert(t[k] != c);
    } else if k < i {
        assert(t[i] != c);
    }
}

/// The last position of `c` in `t`.
pub fn rfind_char(t: &Vec<char>, c: char) -> (r: Option<usize>)
    ensures
        r matches Some(i) ==> last_index(t@, c) == Some(i as int),
        r is None ==> last_index(t@, c) is None,
{
    let mut i: usize = t.len();
    while i > 0
        invariant
            i <= t.len(),
            forall|j: int| i <= j < t.len() ==> t@[j] != c,
        decreases i,
    {
        if t[i - 1] == c {
            proof {
                lemma_last_index(t@, c, i - 1);
            }
            return Some(i - 1);
        }
        i -= 1;
    }
    proof {
        if exists|k: int| is_last(t@, c, k) {
            let k = choose|k: int| is_last(t@, c, k);
            assert(t@[k] == c);
        }
    }
    None
}

/// The pieces of `t` between the occurrences of `sep`, as `str::split` gives them.
pub open spec fn split_seq(t: Seq<char>, sep: char) -> Seq<Seq<char>>
    decreases t.len(),
{
    match first_index(t, sep) {
        Some(i) => if 0 <= i < t.len() {
            seq![t.subrange(0, i)] + split_seq(t.subrange(i + 1, t.len() as int), sep)
        } else {
            seq![t]
        },
        None => seq![t],
    }
}

/// The character sequences of a list of character vectors.
pub open spec fn char_views(v: Seq<Vec<char>>) -> Seq<Seq<char>> {
    v.map_values(|x: Vec<char>| x@)
}

/// Splits `t` at every `sep`.
pub fn split_chars(t: &Vec<char>, sep: char) -> (out: Vec<Vec<char>>)
    ensures
        char_views(out@) == split_seq(t@, sep),
{
    let mut out: Vec<Vec<char>> = Vec::new();
    let mut rest = slice_chars(t, 0, t.len());
    assert(t@.subrange(0, t@.len() as int) =~= t@);
    loop
        invariant
            char_views(out@) + split_seq(rest@, sep) == split_seq(t@, sep),
        decreases rest.len(),
    {
        match find_char(&rest, sep) {
            Some(i) => {
                let piece = slice_chars(&rest, 0, i);
                let tail = slice_chars(&rest, i + 1, rest.len());
                proof {
                    assert(split_seq(rest@, sep) == seq![piece@] + split_seq(tail@, sep));
                    assert(char_views(out@.push(piece)) =~= char_views(out@).push(piece@));
                    assert(char_views(out@).push(piece@) + split_seq(tail@, sep) =~= char_views(
                        out@,
                    ) + (seq![piece@] + split_seq(tail@, sep)));
                }
                out.push(piece);
                rest = tail;
            },
            None => {
                proof {
                    assert(split_seq(rest@, sep) == seq![rest@]);
                    assert(char_views(out@.push(rest)) =~= char_views(out@) + seq![rest@]);
                }
                out.push(rest);
                return out;
            },
        }
    }
}

/// Whether `t` begins with `p`.
pub open spec fn has_prefix(t: Seq<char>, p: Seq<char>) -> bool {
    p.len() <= t.len() && t.subrange(0, p.len() as int) == p
}

/// Whether `t` begins with `p`.
pub fn starts_with(t: &Vec<char>, p: &Vec<char>) -> (r: bool)
    ensures
        r == has_prefix(t@, p@),
{
    if p.len() > t.len() {
        return false;
    }
    let mut i: usize = 0;
    while i < p.len()
        invariant
            i <= p.len() <= t.len(),
            forall|j: int| 0 <= j < i ==> t@[j] == p@[j],
        decreases p.len() - i,
    {
        if t[i] != p[i] {
            assert(t@.subrange(0, p.len() as int)[i as int] != p@[i as int]);
            return false;
        }
        i += 1;
    }
    assert(t@.subrange(0, p.len() as int) =~= p@);
    true
}

} // verus!
