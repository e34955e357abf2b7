//! Character-level text utilities with their mathematical meaning.
use vstd::prelude::*;
use crate::outside::string_push;

verus! {

broadcast use vstd::string::group_string_axioms;

/// The characters of a string, in order.
pub fn chars_of(s: &str) -> (r: Vec<char>)
    ensures
        r@ == s@,
{
    let mut r: Vec<char> = Vec::new();
    for c in it: s.chars()
        invariant
            it.seq() == s@,
            r@ == it.seq().take(it.index() as int),
    {
        r.push(c);
        assert(r@ == it.seq().take(it.index() + 1));
    }
    r
}

/// A string made of the given characters.
pub fn string_of(v: &[char]) -> (r: String)
    ensures
        r@ == v@,
{
    let mut r = String::new();
    let mut i: usize = 0;
    while i < v.len()
        invariant
            i <= v@.len(),
            r@ == v@.take(i as int),
        decreases v@.len() - i,
    {
        string_push(&mut r, v[i]);
        assert(v@.take(i as int).push(v@[i as int]) =~= v@.take(i + 1));
        i += 1;
    }
    assert(v@.take(v@.len() as int) =~= v@);
    r
}

} // verus!

verus! {

/// Rust's `char::is_whitespace`: the Unicode `White_Space` property.
pub open spec fn is_ws(c: char) -> bool {
    let u = c as u32;
    ||| 0x09 <= u <= 0x0D
    ||| u == 0x20
    ||| u == 0x85
    ||| u == 0xA0
    ||| u == 0x1680
    ||| 0x2000 <= u <= 0x200A
    ||| u == 0x2028
    ||| u == 0x2029
    ||| u == 0x202F
    ||| u == 0x205F
    ||| u == 0x3000
}

pub fn is_whitespace(c: char) -> (b: bool)
    ensures
        b == is_ws(c),
{
    let u = c as u32;
    (0x09 <= u && u <= 0x0D) || u == 0x20 || u == 0x85 || u == 0xA0 || u == 0x1680 || (0x2000
        <= u && u <= 0x200A) || u == 0x2028 || u == 0x2029 || u == 0x202F || u == 0x205F || u
        == 0x3000
}

/// `str::trim_start`.
pub open spec fn trim_start(s: Seq<char>) -> Seq<char>
    decreases s.len(),
{
    if s.len() > 0 && is_ws(s[0]) {
        trim_start(s.drop_first())
    } else {
        s
    }
}

/// `str::trim_end`.
pub open spec fn trim_end(s: Seq<char>) -> Seq<char>
    decreases s.len(),
{
    if s.len() > 0 && is_ws(s.last()) {
        trim_end(s.drop_last())
    } else {
        s
    }
}

/// `str::trim`.
pub open spec fn trim(s: Seq<char>) -> Seq<char> {
    trim_end(trim_start(s))
}

/// `str::trim_end_matches(c)` for a single character.
pub open spec fn trim_end_char(s: Seq<char>, c: char) -> Seq<char>
    decreases s.len(),
{
    if s.len() > 0 && s.last() == c {
        trim_end_char(s.drop_last(), c)
    } else {
        s
    }
}

pub proof fn lemma_trim_start_is_suffix(s: Seq<char>)
    ensures
        trim_start(s).len() <= s.len(),
        trim_start(s) =~= s.skip(s.len() - trim_start(s).len()),
        trim_start(s).len() > 0 ==> !is_ws(trim_start(s)[0]),
        forall|i: int| 0 <= i < s.len() - trim_start(s).len() ==> is_ws(#[trigger] s[i]),
    decreases s.len(),
{
    if s.len() > 0 && is_ws(s[0]) {
        lemma_trim_start_is_suffix(s.drop_first());
        assert forall|i: int| 0 <= i < s.len() - trim_start(s).len() implies is_ws(#[trigger] s[i]) by {
            if i > 0 {
                assert(s[i] == s.drop_first()[i - 1]);
            }
        }
    }
}

pub proof fn lemma_trim_end_is_prefix(s: Seq<char>)
    ensures
        trim_end(s).len() <= s.len(),
        trim_end(s) =~= s.take(trim_end(s).len() as int),
        trim_end(s).len() > 0 ==> !is_ws(trim_end(s).last()),
        forall|i: int| trim_end(s).len() <= i < s.len() ==> is_ws(#[trigger] s[i]),
    decreases s.len(),
{
    if s.len() > 0 && is_ws(s.last()) {
        lemma_trim_end_is_prefix(s.drop_last());
        assert forall|i: int| trim_end(s).len() <= i < s.len() implies is_ws(#[trigger] s[i]) by {
            if i < s.len() - 1 {
                assert(s[i] == s.drop_last()[i]);
            }
        }
    }
}

pub proof fn lemma_trim_end_char_is_prefix(s: Seq<char>, c: char)
    ensures
        trim_end_char(s, c).len() <= s.len(),
        trim_end_char(s, c) =~= s.take(trim_end_char(s, c).len() as int),
        trim_end_char(s, c).len() > 0 ==> trim_end_char(s, c).last() != c,
        forall|i: int| trim_end_char(s, c).len() <= i < s.len() ==> #[trigger] s[i] == c,
    decreases s.len(),
{
    if s.len() > 0 && s.last() == c {
        lemma_trim_end_char_is_prefix(s.drop_last(), c);
        assert forall|i: int| trim_end_char(s, c).len() <= i < s.len() implies #[trigger] s[i]
            == c by {
            if i < s.len() - 1 {
                assert(s[i] == s.drop_last()[i]);
            }
        }
    }
}

/// Characters `v[from..to]`.
pub fn sub_chars(v: &[char], from: usize, to: usize) -> (r: Vec<char>)
    requires
        from <= to <= v@.len(),
    ensures
        r@ == v@.subrange(from as int, to as int),
{
    let mut r: Vec<char> = Vec::new();
    let mut i = from;
    while i < to
        invariant
            from <= i <= to <= v@.len(),
            r@ == v@.subrange(from as int, i as int),
        decreases to - i,
    {
        r.push(v[i]);
        assert(v@.subrange(from as int, i as int).push(v@[i as int]) =~= v@.subrange(
            from as int,
            i + 1,
        ));
        i += 1;
    }
    r
}

/// Appends `b` to `a`.
pub fn append_chars(a: &mut Vec<char>, b: &[char])
    ensures
        final(a)@ == old(a)@ + b@,
{
    let mut i: usize = 0;
    while i < b.len()
        invariant
            i <= b@.len(),
            a@ == old(a)@ + b@.take(i as int),
        decreases b@.len() - i,
    {
        a.push(b[i]);
        assert(old(a)@ + b@.take(i + 1) =~= old(a)@ + b@.take(i as int) + seq![b@[i as int]]);
        i += 1;
    }
    assert(b@.take(b@.len() as int) =~= b@);
}

/// Concatenation `a ++ b`.
pub fn concat_chars(a: &[char], b: &[char]) -> (r: Vec<char>)
    ensures
        r@ == a@ + b@,
{
    let mut r = sub_chars(a, 0, a.len());
    assert(a@.subrange(0, a@.len() as int) =~= a@);
    append_chars(&mut r, b);
    r
}

/// Length of the prefix that `trim_start` removes.
pub fn trim_start_len(s: &[char]) -> (n: usize)
    ensures
        n <= s@.len(),
        trim_start(s@) == s@.skip(n as int),
{
    let mut i: usize = 0;
    assert(s@.skip(0) =~= s@);
    while i < s.len() && is_whitespace(s[i])
        invariant
            i <= s@.len(),
            trim_start(s@) == trim_start(s@.skip(i as int)),
        decreases s@.len() - i,
    {
        assert(s@.skip(i as int).drop_first() =~= s@.skip(i + 1));
        i += 1;
    }
    i
}

/// Length of the prefix that `trim_end` keeps.
pub fn trim_end_len(s: &[char]) -> (n: usize)
    ensures
        n <= s@.len(),
        trim_end(s@) == s@.take(n as int),
{
    let mut j: usize = s.len();
    assert(s@.take(j as int) =~= s@);
    while j > 0 && is_whitespace(s[j - 1])
        invariant
            j <= s@.len(),
            trim_end(s@) == trim_end(s@.take(j as int)),
        decreases j,
    {
        assert(s@.take(j as int).drop_last() =~= s@.take(j - 1));
        j -= 1;
    }
    j
}

/// `s.trim()`.
pub fn trim_chars(s: &[char]) -> (r: Vec<char>)
    ensures
        r@ == trim(s@),
{
    let a = trim_start_len(s);
    let rest = sub_chars(s, a, s.len());
    assert(rest@ =~= s@.skip(a as int));
    let b = trim_end_len(&rest);
    sub_chars(&rest, 0, b)
}

/// `s.trim_start()`.
pub fn trim_start_chars(s: &[char]) -> (r: Vec<char>)
    ensures
        r@ == trim_start(s@),
{
    let a = trim_start_len(s);
    let r = sub_chars(s, a, s.len());
    assert(r@ =~= s@.skip(a as int));
    r
}

/// `s.trim_end()`.
pub fn trim_end_chars(s: &[char]) -> (r: Vec<char>)
    ensures
        r@ == trim_end(s@),
{
    let b = trim_end_len(s);
    sub_chars(s, 0, b)
}

/// `s.trim_end_matches(c)`.
pub fn trim_end_char_chars(s: &[char], c: char) -> (r: Vec<char>)
    ensures
        r@ == trim_end_char(s@, c),
{
    let mut j: usize = s.len();
    assert(s@.take(j as int) =~= s@);
    while j > 0 && s[j - 1] == c
        invariant
            j <= s@.len(),
            trim_end_char(s@, c) == trim_end_char(s@.take(j as int), c),
        decreases j,
    {
        assert(s@.take(j as int).drop_last() =~= s@.take(j - 1));
        j -= 1;
    }
    sub_chars(s, 0, j)
}

/// Equality of two character sequences.
pub fn chars_eq(a: &[char], b: &[char]) -> (r: bool)
    ensures
        r == (a@ == b@),
{
    if a.len() != b.len() {
        return false;
    }
    let mut i: usize = 0;
    while i < a.len()
        invariant
            a@.len() == b@.len(),
            i <= a@.len(),
            forall|k: int| 0 <= k < i ==> a@[k] == b@[k],
        decreases a@.len() - i,
    {
        if a[i] != b[i] {
            return false;
        }
        i += 1;
    }
    assert(a@ =~= b@);
    true
}

/// `s` starts with `p` at position `at`.
pub open spec fn occurs_at(s: Seq<char>, p: Seq<char>, at: int) -> bool {
    0 <= at && at + p.len() <= s.len() && s.subrange(at, at + p.len()) == p
}

pub open spec fn starts_with(s: Seq<char>, p: Seq<char>) -> bool {
    occurs_at(s, p, 0)
}

pub open spec fn ends_with(s: Seq<char>, p: Seq<char>) -> bool {
    occurs_at(s, p, s.len() - p.len())
}

pub open spec fn contains(s: Seq<char>, p: Seq<char>) -> bool {
    exists|i: int| occurs_at(s, p, i)
}

/// The first position at or after `from` where `p` occurs, if any.
pub open spec fn find_from(s: Seq<char>, p: Seq<char>, from: int) -> Option<int>
    decreases s.len() + 1 - from,
{
    if from < 0 || from + p.len() > s.len() {
        None
    } else if occurs_at(s, p, from) {
        Some(from)
    } else {
        find_from(s, p, from + 1)
    }
}

/// `str::find`: the first position where `p` occurs.
pub open spec fn find(s: Seq<char>, p: Seq<char>) -> Option<int> {
    find_from(s, p, 0)
}

pub proof fn lemma_find_from(s: Seq<char>, p: Seq<char>, from: int)
    requires
        0 <= from,
    ensures
        find_from(s, p, from) matches Some(i) ==> from <= i && occurs_at(s, p, i) && forall|
            k: int,
        |
            from <= k < i ==> !occurs_at(s, p, k),
        find_from(s, p, from) is None ==> forall|k: int| from <= k ==> !occurs_at(s, p, k),
    decreases s.len() + 1 - from,
{
    if from + p.len() > s.len() {
    } else if occurs_at(s, p, from) {
    } else {
        lemma_find_from(s, p, from + 1);
    }
}

pub proof fn lemma_find(s: Seq<char>, p: Seq<char>)
    ensures
        find(s, p) matches Some(i) ==> occurs_at(s, p, i) && forall|k: int|
            0 <= k < i ==> !occurs_at(s, p, k),
        find(s, p) is None <==> !contains(s, p),
{
    lemma_find_from(s, p, 0);
    if find(s, p) is None {
        assert forall|k: int| !occurs_at(s, p, k) by {
            if k >= 0 {
            }
        }
    }
}

/// `p` occurs at `at` in `s`.
pub fn occurs_at_exec(s: &[char], p: &[char], at: usize) -> (r: bool)
    ensures
        r == occurs_at(s@, p@, at as int),
{
    if at > s.len() || p.len() > s.len() - at {
        return false;
    }
    let slen = s.len();
    let mut k: usize = 0;
    while k < p.len()
        invariant
            slen == s@.len(),
            at <= s@.len(),
            at + p@.len() <= s@.len(),
            k <= p@.len(),
            forall|j: int| 0 <= j < k ==> s@[at + j] == p@[j],
        decreases p@.len() - k,
    {
        if s[at + k] != p[k] {
            assert(s@.subrange(at as int, at + p@.len())[k as int] != p@[k as int]);
            return false;
        }
        k += 1;
    }
    assert(s@.subrange(at as int, at + p@.len()) =~= p@);
    true
}

/// `s.starts_with(p)`.
pub fn starts_with_exec(s: &[char], p: &[char]) -> (r: bool)
    ensures
        r == starts_with(s@, p@),
{
    occurs_at_exec(s, p, 0)
}

/// `s.ends_with(p)`.
pub fn ends_with_exec(s: &[char], p: &[char]) -> (r: bool)
    ensures
        r == ends_with(s@, p@),
{
    if p.len() > s.len() {
        return false;
    }
    occurs_at_exec(s, p, s.len() - p.len())
}

/// `s.find(p)` counted in characters.
pub fn find_exec(s: &[char], p: &[char]) -> (r: Option<usize>)
    ensures
        r matches Some(i) ==> find(s@, p@) == Some(i as int),
        r is None ==> find(s@, p@) is None,
{
    if p.len() > s.len() {
        return None;
    }
    let last = s.len() - p.len();
    let mut i: usize = 0;
    loop
        invariant
            last + p@.len() == s@.len(),
            i <= last,
            find(s@, p@) == find_from(s@, p@, i as int),
        decreases last - i,
    {
        if occurs_at_exec(s, p, i) {
            return Some(i);
        }
        if i == last {
            assert(find_from(s@, p@, i + 1) is None);
            return None;
        }
        i += 1;
    }
}

/// `s.contains(p)`.
pub fn contains_exec(s: &[char], p: &[char]) -> (r: bool)
    ensures
        r == contains(s@, p@),
{
    proof {
        lemma_find(s@, p@);
    }
    find_exec(s, p).is_some()
}

/// ASCII lower-casing of one character (`char::to_ascii_lowercase`).
pub open spec fn ascii_lower(c: char) -> char {
    if 'A' <= c <= 'Z' {
        ((c as u32) + 32) as char
    } else {
        c
    }
}

pub open spec fn ascii_lower_seq(s: Seq<char>) -> Seq<char> {
    s.map_values(|c: char| ascii_lower(c))
}

/// `s.to_ascii_lowercase()`.
pub fn to_ascii_lowercase_chars(s: &[char]) -> (r: Vec<char>)
    ensures
        r@ == ascii_lower_seq(s@),
{
    let mut r: Vec<char> = Vec::new();
    let mut i: usize = 0;
    while i < s.len()
        invariant
            i <= s@.len(),
            r@ == ascii_lower_seq(s@.take(i as int)),
        decreases s@.len() - i,
    {
        let c = s[i];
        let l = if 'A' <= c && c <= 'Z' {
            (((c as u32) + 32) as u8) as char
        } else {
            c
        };
        r.push(l);
        assert(ascii_lower_seq(s@.take(i + 1)) =~= ascii_lower_seq(s@.take(i as int)).push(
            ascii_lower(c),
        ));
        i += 1;
    }
    assert(s@.take(s@.len() as int) =~= s@);
    r
}

} // verus!

verus! {

/// The index of the first `'\n'` at or after `from`, or `t.len()` if there is none.
pub open spec fn newline_index(t: Seq<char>, from: int) -> int
    decreases t.len() - from,
{
    if from < 0 || from >= t.len() {
        t.len() as int
    } else if t[from] == '\n' {
        from
    } else {
        newline_index(t, from + 1)
    }
}

pub proof fn lemma_newline_index(t: Seq<char>, from: int)
    requires
        0 <= from <= t.len(),
    ensures
        from <= newline_index(t, from) <= t.len(),
        newline_index(t, from) < t.len() ==> t[newline_index(t, from)] == '\n',
        forall|k: int| from <= k < newline_index(t, from) ==> t[k] != '\n',
    decreases t.len() - from,
{
    if from < t.len() && t[from] != '\n' {
        lemma_newline_index(t, from + 1);
    }
}

pub proof fn lemma_newline_index_shift(t: Seq<char>, start: int, from: int)
    requires
        0 <= start <= t.len(),
        0 <= from <= t.len() - start,
    ensures
        newline_index(t.skip(start), from) == newline_index(t, start + from) - start,
    decreases t.len() - start - from,
{
    if from < t.len() - start && t[start + from] != '\n' {
        lemma_newline_index_shift(t, start, from + 1);
    }
}

/// Removes one trailing `'\r'`.
pub open spec fn strip_cr(l: Seq<char>) -> Seq<char> {
    if l.len() > 0 && l.last() == '\r' {
        l.drop_last()
    } else {
        l
    }
}

/// `str::lines`: pieces between `'\n'`s, a `'\r'` before a `'\n'` dropped, and no
/// final empty piece after a terminating newline.
pub open spec fn lines(t: Seq<char>) -> Seq<Seq<char>>
    decreases t.len(),
{
    if t.len() == 0 {
        seq![]
    } else {
        let i = newline_index(t, 0);
        if i >= t.len() {
            seq![t]
        } else {
            proof {
                lemma_newline_index(t, 0);
            }
            seq![strip_cr(t.take(i))] + lines(t.skip(i + 1))
        }
    }
}

/// `parts.join(sep)`.
pub open spec fn join(parts: Seq<Seq<char>>, sep: Seq<char>) -> Seq<char>
    decreases parts.len(),
{
    if parts.len() == 0 {
        seq![]
    } else if parts.len() == 1 {
        parts[0]
    } else {
        join(parts.drop_last(), sep) + sep + parts.last()
    }
}

pub open spec fn views(v: Seq<Vec<char>>) -> Seq<Seq<char>> {
    v.map_values(|x: Vec<char>| x@)
}

/// The index of the first `'\n'` at or after `from`, or `t.len()`.
pub fn newline_index_exec(t: &[char], from: usize) -> (i: usize)
    requires
        from <= t@.len(),
    ensures
        i == newline_index(t@, from as int),
{
    let mut i = from;
    while i < t.len() && t[i] != '\n'
        invariant
            from <= i <= t@.len(),
            newline_index(t@, from as int) == newline_index(t@, i as int),
        decreases t@.len() - i,
    {
        i += 1;
    }
    i
}

/// `t.lines()`.
pub fn lines_exec(t: &[char]) -> (r: Vec<Vec<char>>)
    ensures
        views(r@) == lines(t@),
{
    let mut r: Vec<Vec<char>> = Vec::new();
    let mut start: usize = 0;
    assert(t@.skip(0) =~= t@);
    while start < t.len()
        invariant
            start <= t@.len(),
            lines(t@) == views(r@) + lines(t@.skip(start as int)),
        decreases t@.len() - start,
    {
        let ghost rest = t@.skip(start as int);
        let i = newline_index_exec(t, start);
        proof {
            lemma_newline_index(t@, start as int);
            lemma_newline_index_shift(t@, start as int, 0);
        }
        if i >= t.len() {
            let piece = sub_chars(t, start, t.len());
            assert(piece@ =~= rest);
            r.push(piece);
            assert(views(r@) =~= views(r@.drop_last()).push(piece@));
            assert(t@.skip(t@.len() as int) =~= Seq::<char>::empty());
            assert(lines(t@.skip(t@.len() as int)) =~= Seq::<Seq<char>>::empty());
            start = t.len();
        } else {
            let raw = sub_chars(t, start, i);
            let piece = if raw.len() > 0 && raw[raw.len() - 1] == '\r' {
                sub_chars(&raw, 0, raw.len() - 1)
            } else {
                raw
            };
            assert(raw@ =~= rest.take(i - start));
            assert(piece@ =~= strip_cr(rest.take(i - start)));
            assert(rest.skip(i - start + 1) =~= t@.skip(i + 1));
            r.push(piece);
            assert(views(r@) =~= views(r@.drop_last()).push(piece@));
            start = i + 1;
        }
    }
    assert(t@.skip(start as int) =~= Seq::<char>::empty());
    assert(lines(t@.skip(start as int)) =~= Seq::<Seq<char>>::empty());
    assert(views(r@) + Seq::<Seq<char>>::empty() =~= views(r@));
    r
}

/// `parts.join(sep)`.
pub fn join_exec(parts: &[Vec<char>], sep: &[char]) -> (r: Vec<char>)
    ensures
        r@ == join(views(parts@), sep@),
{
    if parts.len() == 0 {
        return Vec::new();
    }
    let mut r = sub_chars(&parts[0], 0, parts[0].len());
    assert(r@ =~= parts@[0]@);
    assert(views(parts@).take(1) =~= seq![parts@[0]@]);
    let mut i: usize = 1;
    while i < parts.len()
        invariant
            1 <= i <= parts@.len(),
            r@ == join(views(parts@).take(i as int), sep@),
        decreases parts@.len() - i,
    {
        append_chars(&mut r, sep);
        append_chars(&mut r, &parts[i]);
        let ghost t = views(parts@).take(i + 1);
        assert(t.drop_last() =~= views(parts@).take(i as int));
        assert(t.last() == parts@[i as int]@);
        i += 1;
    }
    assert(views(parts@).take(parts@.len() as int) =~= views(parts@));
    r
}

} // verus!

verus! {

/// `s` has no `'\n'`.
pub open spec fn no_newline(s: Seq<char>) -> bool {
    forall|i: int| 0 <= i < s.len() ==> s[i] != '\n'
}

/// `s` does not end with `'\r'`.
pub open spec fn no_trailing_cr(s: Seq<char>) -> bool {
    s.len() == 0 || s.last() != '\r'
}

/// The lines that `lines` gives back after `join` with `'\n'`: no element holds
/// a newline, no element but the last ends with `'\r'`, and the last is not empty.
pub open spec fn rejoinable(m: Seq<Seq<char>>) -> bool {
    &&& forall|k: int| 0 <= k < m.len() ==> no_newline(#[trigger] m[k])
    &&& forall|k: int| 0 <= k < m.len() - 1 ==> no_trailing_cr(#[trigger] m[k])
    &&& m.len() > 0 ==> m.last().len() > 0
}

pub proof fn lemma_join_front(m: Seq<Seq<char>>, sep: Seq<char>)
    requires
        m.len() >= 2,
    ensures
        join(m, sep) == m[0] + sep + join(m.drop_first(), sep),
    decreases m.len(),
{
    if m.len() == 2 {
        assert(m.drop_first().len() == 1);
        assert(join(m.drop_first(), sep) == m.drop_first()[0]);
        assert(m.drop_last().len() == 1);
        assert(join(m.drop_last(), sep) == m.drop_last()[0]);
    } else {
        lemma_join_front(m.drop_last(), sep);
        assert(m.drop_last().drop_first() =~= m.drop_first().drop_last());
        assert(m.drop_first().last() == m.last());
        assert(m.drop_last()[0] == m[0]);
        assert(join(m.drop_first(), sep) == join(m.drop_first().drop_last(), sep) + sep
            + m.drop_first().last());
        assert(m[0] + sep + join(m.drop_first(), sep) =~= (m[0] + sep + join(
            m.drop_first().drop_last(),
            sep,
        )) + sep + m.last());
    }
}

pub proof fn lemma_newline_index_at(t: Seq<char>, from: int, k: int)
    requires
        0 <= from <= k <= t.len(),
        forall|j: int| from <= j < k ==> t[j] != '\n',
        k == t.len() || t[k] == '\n',
    ensures
        newline_index(t, from) == k,
    decreases k - from,
{
    if from < k {
        lemma_newline_index_at(t, from + 1, k);
    }
}

/// `lines` gives back what `join` joined.
pub proof fn lemma_lines_join(m: Seq<Seq<char>>)
    requires
        rejoinable(m),
    ensures
        lines(join(m, seq!['\n'])) == m,
    decreases m.len(),
{
    let nl = seq!['\n'];
    if m.len() == 0 {
    } else if m.len() == 1 {
        let t = join(m, nl);
        assert(t == m[0]);
        assert(no_newline(m[0]));
        lemma_newline_index_at(t, 0, t.len() as int);
        assert(lines(t) =~= seq![t]);
    } else {
        lemma_join_front(m, nl);
        let rest = join(m.drop_first(), nl);
        let t = join(m, nl);
        assert(t == m[0] + nl + rest);
        assert(no_newline(m[0]));
        assert forall|j: int| 0 <= j < m[0].len() implies t[j] != '\n' by {
            assert(t[j] == m[0][j]);
        }
        assert(t[m[0].len() as int] == '\n');
        lemma_newline_index_at(t, 0, m[0].len() as int);
        assert(t.take(m[0].len() as int) =~= m[0]);
        assert(t.skip(m[0].len() + 1int) =~= rest);
        assert(no_trailing_cr(m[0]));
        assert(strip_cr(m[0]) == m[0]);
        assert(rejoinable(m.drop_first())) by {
            assert forall|k: int| 0 <= k < m.drop_first().len() implies no_newline(
                #[trigger] m.drop_first()[k],
            ) by {
                assert(m.drop_first()[k] == m[k + 1]);
            }
            assert forall|k: int| 0 <= k < m.drop_first().len() - 1 implies no_trailing_cr(
                #[trigger] m.drop_first()[k],
            ) by {
                assert(m.drop_first()[k] == m[k + 1]);
            }
        }
        lemma_lines_join(m.drop_first());
        assert(lines(t) =~= seq![m[0]] + m.drop_first());
        assert(seq![m[0]] + m.drop_first() =~= m);
    }
}

/// The lines of a text hold no newline.
pub proof fn lemma_lines_no_newline(t: Seq<char>)
    ensures
        forall|k: int| 0 <= k < lines(t).len() ==> no_newline(#[trigger] lines(t)[k]),
    decreases t.len(),
{
    if t.len() > 0 {
        let i = newline_index(t, 0);
        lemma_newline_index(t, 0);
        if i >= t.len() {
            assert(lines(t) =~= seq![t]);
        } else {
            lemma_lines_no_newline(t.skip(i + 1));
            assert forall|k: int| 0 <= k < lines(t).len() implies no_newline(#[trigger] lines(t)[k]) by {
                if k == 0 {
                    assert(lines(t)[0] == strip_cr(t.take(i)));
                } else {
                    assert(lines(t)[k] == lines(t.skip(i + 1))[k - 1]);
                }
            }
        }
    }
}

} // verus!
