//! What writing and then removing the managed block does to the rest of a
//! Codex configuration: its settings come back, line for line, apart from
//! blank lines and whitespace at the ends of lines.
use vstd::prelude::*;
use crate::managed_config::{
    begin_marker, end_marker, preserve_lines, preserved_as, preserved_prefix, restore_line,
    restore_lines,
};
use crate::outside::is_base64_char;
use crate::text::{is_ws, lines, newline_index, starts_with, strip_cr, trim, trim_end, trim_start};

verus! {

/// A line with nothing but whitespace.
pub open spec fn blank(l: Seq<char>) -> bool {
    trim(l).len() == 0
}

/// The settings a sequence of lines holds: its lines that are not blank, trimmed.
pub open spec fn content(ls: Seq<Seq<char>>) -> Seq<Seq<char>>
    decreases ls.len(),
{
    if ls.len() == 0 {
        seq![]
    } else if blank(ls[0]) {
        content(ls.drop_first())
    } else {
        seq![trim(ls[0])] + content(ls.drop_first())
    }
}

/// The settings a text holds once its preserved lines are decoded; `None`
/// when a preserved line cannot be decoded.
pub open spec fn restored_content(t: Seq<char>) -> Option<Seq<Seq<char>>> {
    match restore_lines(lines(t)) {
        Some(m) => Some(content(m)),
        None => None,
    }
}

pub open spec fn opt_cat(a: Option<Seq<Seq<char>>>, b: Option<Seq<Seq<char>>>) -> Option<
    Seq<Seq<char>>,
> {
    match (a, b) {
        (Some(x), Some(y)) => Some(x + y),
        _ => None,
    }
}

pub proof fn lemma_content_concat(a: Seq<Seq<char>>, b: Seq<Seq<char>>)
    ensures
        content(a + b) == content(a) + content(b),
    decreases a.len(),
{
    if a.len() == 0 {
        assert(a + b =~= b);
    } else {
        assert((a + b).drop_first() =~= a.drop_first() + b);
        assert((a + b)[0] == a[0]);
        lemma_content_concat(a.drop_first(), b);
        if !blank(a[0]) {
            assert(seq![trim(a[0])] + (content(a.drop_first()) + content(b)) =~= (seq![trim(a[0])]
                + content(a.drop_first())) + content(b));
        }
    }
}

pub proof fn lemma_restore_concat(a: Seq<Seq<char>>, b: Seq<Seq<char>>)
    ensures
        restore_lines(a + b) == match (restore_lines(a), restore_lines(b)) {
            (Some(x), Some(y)) => Some(x + y),
            _ => None::<Seq<Seq<char>>>,
        },
    decreases a.len(),
{
    if a.len() == 0 {
        assert(a + b =~= b);
    } else {
        assert((a + b).drop_first() =~= a.drop_first() + b);
        assert((a + b)[0] == a[0]);
        lemma_restore_concat(a.drop_first(), b);
        match (restore_line(a[0]), restore_lines(a.drop_first()), restore_lines(b)) {
            (Some(x), Some(r), Some(y)) => {
                assert(seq![x] + (r + y) =~= (seq![x] + r) + y);
            },
            _ => {},
        }
    }
}

pub proof fn lemma_restored_content_of_lines(a: Seq<Seq<char>>, b: Seq<Seq<char>>)
    ensures
        match restore_lines(a + b) {
            Some(m) => Some(content(m)),
            None => None::<Seq<Seq<char>>>,
        } == opt_cat(
            match restore_lines(a) {
                Some(m) => Some(content(m)),
                None => None::<Seq<Seq<char>>>,
            },
            match restore_lines(b) {
                Some(m) => Some(content(m)),
                None => None::<Seq<Seq<char>>>,
            },
        ),
{
    lemma_restore_concat(a, b);
    match (restore_lines(a), restore_lines(b)) {
        (Some(x), Some(y)) => {
            lemma_content_concat(x, y);
        },
        _ => {},
    }
}

/// The lines of `a`, a newline, then `b`: those of `a` ended by the newline,
/// then those of `b`.
pub proof fn lemma_lines_split(a: Seq<char>, b: Seq<char>)
    ensures
        lines(a + seq!['\n'] + b) == lines(a + seq!['\n']) + lines(b),
    decreases a.len(),
{
    let nl = seq!['\n'];
    let t = a + nl + b;
    let u = a + nl;
    crate::text::lemma_newline_index(a, 0);
    let i = newline_index(a, 0);
    if i >= a.len() {
        assert forall|j: int| 0 <= j < a.len() implies t[j] != '\n' by {
            assert(t[j] == a[j]);
        }
        assert forall|j: int| 0 <= j < a.len() implies u[j] != '\n' by {
            assert(u[j] == a[j]);
        }
        crate::text::lemma_newline_index_at(t, 0, a.len() as int);
        crate::text::lemma_newline_index_at(u, 0, a.len() as int);
        assert(t.take(a.len() as int) =~= a);
        assert(u.take(a.len() as int) =~= a);
        assert(t.skip(a.len() + 1int) =~= b);
        assert(u.skip(a.len() + 1int) =~= Seq::<char>::empty());
        assert(lines(Seq::<char>::empty()) =~= Seq::<Seq<char>>::empty());
        assert(lines(u) =~= seq![strip_cr(a)]);
        assert(lines(t) =~= seq![strip_cr(a)] + lines(b));
    } else {
        assert forall|j: int| 0 <= j < i implies t[j] != '\n' by {
            assert(t[j] == a[j]);
        }
        assert forall|j: int| 0 <= j < i implies u[j] != '\n' by {
            assert(u[j] == a[j]);
        }
        assert(t[i] == a[i]);
        assert(u[i] == a[i]);
        crate::text::lemma_newline_index_at(t, 0, i);
        crate::text::lemma_newline_index_at(u, 0, i);
        let rest = a.skip(i + 1);
        assert(t.take(i) =~= a.take(i));
        assert(u.take(i) =~= a.take(i));
        assert(t.skip(i + 1) =~= rest + nl + b);
        assert(u.skip(i + 1) =~= rest + nl);
        lemma_lines_split(rest, b);
        assert(lines(t) == seq![strip_cr(a.take(i))] + lines(rest + nl + b));
        assert(lines(u) == seq![strip_cr(a.take(i))] + lines(rest + nl));
        assert(lines(t) =~= lines(u) + lines(b));
    }
}

/// Ending a text that does not end with `'\r'` with a newline adds no line,
/// except an empty one when the text is empty or already ends with a newline.
pub proof fn lemma_lines_newline_end(a: Seq<char>)
    requires
        a.len() == 0 || a.last() != '\r',
    ensures
        lines(a + seq!['\n']) == lines(a) + (if a.len() == 0 || a.last() == '\n' {
            seq![Seq::<char>::empty()]
        } else {
            Seq::<Seq<char>>::empty()
        }),
    decreases a.len(),
{
    let nl = seq!['\n'];
    let u = a + nl;
    crate::text::lemma_newline_index(a, 0);
    let i = newline_index(a, 0);
    if a.len() == 0 {
        crate::text::lemma_newline_index_at(u, 0, 0);
        assert(u.take(0) =~= Seq::<char>::empty());
        assert(u.skip(1) =~= Seq::<char>::empty());
        assert(lines(Seq::<char>::empty()) =~= Seq::<Seq<char>>::empty());
        assert(strip_cr(Seq::<char>::empty()) =~= Seq::<char>::empty());
        assert(lines(u) =~= seq![Seq::<char>::empty()]);
    } else if i >= a.len() {
        assert forall|j: int| 0 <= j < a.len() implies u[j] != '\n' by {
            assert(u[j] == a[j]);
        }
        crate::text::lemma_newline_index_at(u, 0, a.len() as int);
        assert(u.take(a.len() as int) =~= a);
        assert(u.skip(a.len() + 1int) =~= Seq::<char>::empty());
        assert(strip_cr(a) == a);
        assert(lines(Seq::<char>::empty()) =~= Seq::<Seq<char>>::empty());
        assert(lines(a) =~= seq![a]);
        assert(lines(u) =~= seq![a]);
    } else {
        assert forall|j: int| 0 <= j < i implies u[j] != '\n' by {
            assert(u[j] == a[j]);
        }
        assert(u[i] == a[i]);
        crate::text::lemma_newline_index_at(u, 0, i);
        let rest = a.skip(i + 1);
        assert(u.take(i) =~= a.take(i));
        assert(u.skip(i + 1) =~= rest + nl);
        if rest.len() > 0 {
            assert(rest.last() == a.last());
        }
        lemma_lines_newline_end(rest);
        if rest.len() == 0 {
            assert(a.last() == a[i]);
        } else {
            assert(rest.last() == a.last());
        }
        assert(lines(u) =~= lines(a) + (if a.len() == 0 || a.last() == '\n' {
            seq![Seq::<char>::empty()]
        } else {
            Seq::<Seq<char>>::empty()
        }));
    }
}

pub proof fn lemma_empty_line_content()
    ensures
        restore_lines(seq![Seq::<char>::empty()]) == Some(seq![Seq::<char>::empty()]),
        content(seq![Seq::<char>::empty()]) == Seq::<Seq<char>>::empty(),
        restore_lines(Seq::<Seq<char>>::empty()) == Some(Seq::<Seq<char>>::empty()),
        restored_content(Seq::<char>::empty()) == Some(Seq::<Seq<char>>::empty()),
{
    let e = Seq::<char>::empty();
    reveal_strlit("# codex-plus-plus enterprise preserved-root: ");
    assert(preserved_prefix().len() > 0);
    assert(!starts_with(e, preserved_prefix()));
    assert(restore_line(e) == Some(e));
    assert(seq![e].drop_first() =~= Seq::<Seq<char>>::empty());
    assert(trim_start(e) == e);
    assert(trim_end(e) == e);
    assert(blank(e));
    assert(lines(e) =~= Seq::<Seq<char>>::empty());
}

/// The settings of `a`, a newline and `b` are those of `a` followed by those
/// of `b`, when `a` does not end with `'\r'`.
pub proof fn lemma_restored_content_split(a: Seq<char>, b: Seq<char>)
    requires
        a.len() == 0 || a.last() != '\r',
    ensures
        restored_content(a + seq!['\n'] + b) == opt_cat(restored_content(a), restored_content(b)),
{
    lemma_lines_split(a, b);
    lemma_lines_newline_end(a);
    lemma_empty_line_content();
    let extra = if a.len() == 0 || a.last() == '\n' {
        seq![Seq::<char>::empty()]
    } else {
        Seq::<Seq<char>>::empty()
    };
    lemma_restored_content_of_lines(lines(a) + extra, lines(b));
    lemma_restored_content_of_lines(lines(a), extra);
    match restore_lines(lines(a)) {
        Some(m) => {
            assert(content(m) + Seq::<Seq<char>>::empty() =~= content(m));
        },
        None => {},
    }
}

/// Putting a character other than a newline in front of a text puts it in
/// front of the first line (a first line that was empty becomes that
/// character, or stays empty when it is a `'\r'` before a newline).
pub proof fn lemma_lines_cons(c: char, t: Seq<char>)
    requires
        c != '\n',
    ensures
        t.len() == 0 ==> lines(seq![c] + t) == seq![seq![c]],
        t.len() > 0 ==> lines(t).len() > 0 && lines(seq![c] + t).len() == lines(t).len()
            && lines(seq![c] + t).drop_first() == lines(t).drop_first() && (lines(seq![c] + t)[0]
            == seq![c] + lines(t)[0] || (lines(t)[0].len() == 0 && (lines(seq![c] + t)[0]
            == seq![c] || lines(seq![c] + t)[0].len() == 0))),
{
    let s = seq![c] + t;
    crate::text::lemma_newline_index(t, 0);
    if t.len() == 0 {
        assert(s =~= seq![c]);
        crate::text::lemma_newline_index_at(s, 0, 1);
        assert(lines(s) =~= seq![s]);
    } else {
        let i = newline_index(t, 0);
        assert forall|j: int| 1 <= j < i + 1 implies s[j] != '\n' by {
            assert(s[j] == t[j - 1]);
        }
        crate::text::lemma_newline_index_at(s, 0, i + 1);
        if i >= t.len() {
            crate::text::lemma_newline_index_at(t, 0, t.len() as int);
            assert(lines(s) =~= seq![s]);
            assert(lines(t) =~= seq![t]);
        } else {
            assert(s[i + 1] == t[i]);
            assert(s.take(i + 1) =~= seq![c] + t.take(i));
            assert(s.skip(i + 2) =~= t.skip(i + 1));
            assert(lines(s) == seq![strip_cr(s.take(i + 1))] + lines(t.skip(i + 1)));
            assert(lines(t) == seq![strip_cr(t.take(i))] + lines(t.skip(i + 1)));
            assert(lines(s).drop_first() =~= lines(t).drop_first());
            if i > 0 {
                assert(strip_cr(seq![c] + t.take(i)) =~= seq![c] + strip_cr(t.take(i)));
            } else {
                assert(t.take(0) =~= Seq::<char>::empty());
                assert(s.take(1) =~= seq![c]);
            }
        }
    }
}

/// Putting a character other than a newline after a text appends it to the
/// last line, or makes it a new line when the text is empty or ends with a newline.
pub proof fn lemma_lines_snoc(a: Seq<char>, c: char)
    requires
        c != '\n',
    ensures
        lines(a + seq![c]) == if a.len() == 0 || a.last() == '\n' {
            lines(a) + seq![seq![c]]
        } else {
            lines(a).drop_last().push(lines(a).last() + seq![c])
        },
        a.len() > 0 && a.last() != '\n' ==> lines(a).len() > 0,
    decreases a.len(),
{
    let s = a + seq![c];
    crate::text::lemma_newline_index(a, 0);
    let i = newline_index(a, 0);
    if a.len() == 0 {
        assert(s =~= seq![c]);
        crate::text::lemma_newline_index_at(s, 0, 1);
        assert(lines(s) =~= seq![s]);
        assert(lines(a) =~= Seq::<Seq<char>>::empty());
        assert(lines(s) =~= lines(a) + seq![seq![c]]);
    } else if i >= a.len() {
        assert forall|j: int| 0 <= j < s.len() implies s[j] != '\n' by {
            if j < a.len() {
                assert(s[j] == a[j]);
            }
        }
        crate::text::lemma_newline_index_at(s, 0, s.len() as int);
        assert(lines(s) =~= seq![s]);
        assert(lines(a) =~= seq![a]);
        assert(a.last() == a[a.len() - 1]);
        assert(lines(s) =~= lines(a).drop_last().push(lines(a).last() + seq![c]));
    } else {
        assert forall|j: int| 0 <= j < i implies s[j] != '\n' by {
            assert(s[j] == a[j]);
        }
        assert(s[i] == a[i]);
        crate::text::lemma_newline_index_at(s, 0, i);
        let rest = a.skip(i + 1);
        assert(s.take(i) =~= a.take(i));
        assert(s.skip(i + 1) =~= rest + seq![c]);
        lemma_lines_snoc(rest, c);
        assert(lines(s) == seq![strip_cr(a.take(i))] + lines(rest + seq![c]));
        assert(lines(a) == seq![strip_cr(a.take(i))] + lines(rest));
        if rest.len() == 0 {
            assert(a.last() == a[i]);
            assert(lines(rest) =~= Seq::<Seq<char>>::empty());
            assert(lines(s) =~= lines(a) + seq![seq![c]]);
        } else {
            assert(rest.last() == a.last());
            if a.last() == '\n' {
                assert(lines(s) =~= lines(a) + seq![seq![c]]);
            } else {
                assert(lines(rest).len() > 0);
                assert(lines(a).last() == lines(rest).last());
                assert(lines(s) =~= lines(a).drop_last().push(lines(a).last() + seq![c]));
            }
        }
    }
}

/// A `"\r\n"` after a text ends its last line, or adds an empty one when the
/// text is empty or ends with a newline.
pub proof fn lemma_lines_crlf_end(a: Seq<char>)
    ensures
        lines(a + seq!['\r', '\n']) == if a.len() == 0 || a.last() == '\n' {
            lines(a) + seq![Seq::<char>::empty()]
        } else {
            lines(a)
        },
{
    let ar = a + seq!['\r'];
    lemma_lines_snoc(a, '\r');
    assert(a + seq!['\r', '\n'] =~= ar + seq!['\n'] + Seq::<char>::empty());
    lemma_lines_split(ar, Seq::<char>::empty());
    assert(ar + seq!['\n'] + Seq::<char>::empty() =~= ar + seq!['\n']);
    assert(lines(Seq::<char>::empty()) =~= Seq::<Seq<char>>::empty());
    lemma_lines_newline_end_any(ar);
    assert(ar.last() == '\r');
    if a.len() == 0 || a.last() == '\n' {
        assert(lines(ar) == lines(a) + seq![seq!['\r']]);
        assert(strip_cr(seq!['\r']) =~= Seq::<char>::empty());
        assert(lines(ar).drop_last() =~= lines(a));
    } else {
        assert(lines(a).len() > 0);
        assert(strip_cr(lines(a).last() + seq!['\r']) =~= lines(a).last());
        assert(lines(ar).drop_last() =~= lines(a).drop_last());
        assert(lines(a).drop_last().push(lines(a).last()) =~= lines(a));
    }
}

/// Ending a nonempty text that does not end with a newline by a newline drops
/// one `'\r'` from the end of its last line.
pub proof fn lemma_lines_newline_end_any(a: Seq<char>)
    requires
        a.len() > 0,
        a.last() != '\n',
    ensures
        lines(a).len() > 0,
        lines(a + seq!['\n']) == lines(a).drop_last().push(strip_cr(lines(a).last())),
    decreases a.len(),
{
    let u = a + seq!['\n'];
    crate::text::lemma_newline_index(a, 0);
    let i = newline_index(a, 0);
    if i >= a.len() {
        assert forall|j: int| 0 <= j < a.len() implies u[j] != '\n' by {
            assert(u[j] == a[j]);
        }
        crate::text::lemma_newline_index_at(u, 0, a.len() as int);
        assert(u.take(a.len() as int) =~= a);
        assert(u.skip(a.len() + 1int) =~= Seq::<char>::empty());
        assert(lines(Seq::<char>::empty()) =~= Seq::<Seq<char>>::empty());
        assert(lines(a) =~= seq![a]);
        assert(lines(u) =~= seq![strip_cr(a)]);
        assert(lines(u) =~= lines(a).drop_last().push(strip_cr(lines(a).last())));
    } else {
        assert forall|j: int| 0 <= j < i implies u[j] != '\n' by {
            assert(u[j] == a[j]);
        }
        assert(u[i] == a[i]);
        crate::text::lemma_newline_index_at(u, 0, i);
        let rest = a.skip(i + 1);
        assert(u.take(i) =~= a.take(i));
        assert(u.skip(i + 1) =~= rest + seq!['\n']);
        if rest.len() == 0 {
            assert(a.last() == a[i]);
        }
        assert(rest.last() == a.last());
        lemma_lines_newline_end_any(rest);
        assert(lines(u) == seq![strip_cr(a.take(i))] + lines(rest + seq!['\n']));
        assert(lines(a) == seq![strip_cr(a.take(i))] + lines(rest));
        assert(lines(a).last() == lines(rest).last());
        assert(lines(u) =~= lines(a).drop_last().push(strip_cr(lines(a).last())));
    }
}

/// A line in the form of a preserved root setting: the prefix, then at least
/// one base64 character and nothing else.
pub open spec fn preserved_form(l: Seq<char>) -> bool {
    &&& starts_with(l, preserved_prefix())
    &&& l.len() > preserved_prefix().len()
    &&& forall|i: int| preserved_prefix().len() <= i < l.len() ==> is_base64_char(#[trigger] l[i])
}

/// Decoding the line, when it succeeds, gives a single line.
pub open spec fn decodes_to_line(l: Seq<char>) -> bool {
    match restore_line(l) {
        Some(x) => crate::text::no_newline(x),
        None => true,
    }
}

/// A line that reads as a preserved root setting only when it is one in full,
/// decoding to a single line.
pub open spec fn good_line(l: Seq<char>) -> bool {
    starts_with(trim_start(l), preserved_prefix()) ==> preserved_form(l) && decodes_to_line(l)
}

pub open spec fn good_lines(ls: Seq<Seq<char>>) -> bool {
    forall|k: int| 0 <= k < ls.len() ==> good_line(#[trigger] ls[k])
}

pub proof fn lemma_prefix_facts()
    ensures
        preserved_prefix().len() == 45,
        preserved_prefix()[0] == '#',
        forall|i: int| 0 <= i < preserved_prefix().len() ==> #[trigger] preserved_prefix()[i] != '\r'
            && preserved_prefix()[i] != '\n',
        forall|c: char| is_base64_char(c) ==> !is_ws(c),
{
    reveal_strlit("# codex-plus-plus enterprise preserved-root: ");
}

pub proof fn lemma_trim_start_cons_ws(c: char, l: Seq<char>)
    requires
        is_ws(c),
    ensures
        trim_start(seq![c] + l) == trim_start(l),
{
    assert((seq![c] + l).drop_first() =~= l);
}

/// Leading whitespace comes off first in `trim`.
pub proof fn lemma_trim_cons_ws(c: char, l: Seq<char>)
    requires
        is_ws(c),
    ensures
        trim(seq![c] + l) == trim(l),
        blank(seq![c] + l) == blank(l),
{
    lemma_trim_start_cons_ws(c, l);
}

pub proof fn lemma_trim_end_snoc_ws(l: Seq<char>, c: char)
    requires
        is_ws(c),
    ensures
        trim_end(l + seq![c]) == trim_end(l),
{
    assert((l + seq![c]).drop_last() =~= l);
}

/// `trim_start` of a text with a character appended.
pub proof fn lemma_trim_start_snoc(l: Seq<char>, c: char)
    ensures
        trim_start(l + seq![c]) == if trim_start(l).len() == 0 {
            trim_start(seq![c])
        } else {
            trim_start(l) + seq![c]
        },
    decreases l.len(),
{
    if l.len() == 0 {
        assert(l + seq![c] =~= seq![c]);
    } else {
        assert((l + seq![c])[0] == l[0]);
        assert((l + seq![c]).drop_first() =~= l.drop_first() + seq![c]);
        if is_ws(l[0]) {
            lemma_trim_start_snoc(l.drop_first(), c);
        }
    }
}

pub proof fn lemma_trim_snoc_ws(l: Seq<char>, c: char)
    requires
        is_ws(c),
    ensures
        trim(l + seq![c]) == trim(l),
        blank(l + seq![c]) == blank(l),
{
    lemma_trim_start_snoc(l, c);
    if trim_start(l).len() == 0 {
        assert(trim_start(seq![c]) =~= Seq::<char>::empty()) by {
            assert(seq![c][0] == c);
            assert(seq![c].drop_first() =~= Seq::<char>::empty());
            assert(trim_start(Seq::<char>::empty()) == Seq::<char>::empty());
        }
        assert(trim_end(Seq::<char>::empty()) =~= Seq::<char>::empty());
    } else {
        lemma_trim_end_snoc_ws(trim_start(l), c);
    }
}

/// A blank line, or one that does not start with the prefix, restores to itself.
pub proof fn lemma_restore_plain(l: Seq<char>)
    requires
        !starts_with(l, preserved_prefix()),
    ensures
        restore_line(l) == Some(l),
{
}

/// The settings of a sequence of lines once its preserved lines are decoded.
pub open spec fn restored_lines_content(ls: Seq<Seq<char>>) -> Option<Seq<Seq<char>>> {
    match restore_lines(ls) {
        Some(m) => Some(content(m)),
        None => None,
    }
}

pub proof fn lemma_single_line(x: Seq<char>)
    requires
        restore_line(x) == Some(x),
    ensures
        restored_lines_content(seq![x]) == Some(if blank(x) {
            Seq::<Seq<char>>::empty()
        } else {
            seq![trim(x)]
        }),
{
    assert(seq![x].drop_first() =~= Seq::<Seq<char>>::empty());
    assert(restore_lines(Seq::<Seq<char>>::empty()) == Some(Seq::<Seq<char>>::empty()));
    assert(restore_lines(seq![x]) == Some(seq![x] + Seq::<Seq<char>>::empty()));
    assert(seq![x] + Seq::<Seq<char>>::empty() =~= seq![x]);
    assert(content(Seq::<Seq<char>>::empty()) == Seq::<Seq<char>>::empty());
    assert(seq![x].drop_first() =~= Seq::<Seq<char>>::empty());
    if !blank(x) {
        assert(seq![trim(x)] + Seq::<Seq<char>>::empty() =~= seq![trim(x)]);
    }
}

/// Replacing one line by another that restores to itself with the same
/// trimmed text keeps the settings.
pub proof fn lemma_line_swap(pre: Seq<Seq<char>>, x: Seq<char>, y: Seq<char>, post: Seq<Seq<char>>)
    requires
        restore_line(x) == Some(x),
        restore_line(y) == Some(y),
        trim(x) == trim(y),
    ensures
        restored_lines_content(pre + seq![x] + post) == restored_lines_content(
            pre + seq![y] + post,
        ),
{
    lemma_single_line(x);
    lemma_single_line(y);
    lemma_restored_content_of_lines(pre + seq![x], post);
    lemma_restored_content_of_lines(pre, seq![x]);
    lemma_restored_content_of_lines(pre + seq![y], post);
    lemma_restored_content_of_lines(pre, seq![y]);
}

/// A blank line that restores to itself adds no setting.
pub proof fn lemma_blank_line(pre: Seq<Seq<char>>, x: Seq<char>, post: Seq<Seq<char>>)
    requires
        restore_line(x) == Some(x),
        blank(x),
    ensures
        restored_lines_content(pre + seq![x] + post) == restored_lines_content(pre + post),
{
    lemma_single_line(x);
    lemma_restored_content_of_lines(pre + seq![x], post);
    lemma_restored_content_of_lines(pre, seq![x]);
    lemma_restored_content_of_lines(pre, post);
    match (restore_lines(pre), restore_lines(post)) {
        (Some(a), Some(b)) => {
            assert(content(a) + Seq::<Seq<char>>::empty() =~= content(a));
        },
        _ => {},
    }
}

pub proof fn lemma_blank_whitespace(c: char)
    requires
        is_ws(c),
    ensures
        blank(seq![c]),
        blank(Seq::<char>::empty()),
        !starts_with(seq![c], preserved_prefix()),
        !starts_with(Seq::<char>::empty(), preserved_prefix()),
        trim(seq![c]) == Seq::<char>::empty(),
{
    lemma_prefix_facts();
    assert(seq![c][0] == c);
    assert(seq![c].drop_first() =~= Seq::<char>::empty());
    assert(trim_start(Seq::<char>::empty()) == Seq::<char>::empty());
    assert(trim_end(Seq::<char>::empty()) == Seq::<char>::empty());
    if starts_with(seq![c], preserved_prefix()) {
        assert(seq![c].subrange(0, 45)[0] == seq![c][0]);
    }
}

/// Removing leading whitespace keeps the settings of a text.
pub proof fn lemma_trim_start_content(s: Seq<char>)
    requires
        good_lines(lines(s)),
    ensures
        restored_content(trim_start(s)) == restored_content(s),
        good_lines(lines(trim_start(s))),
    decreases s.len(),
{
    lemma_prefix_facts();
    if s.len() == 0 || !is_ws(s[0]) {
    } else {
        let c = s[0];
        let t = s.drop_first();
        assert(s =~= seq![c] + t);
        assert(trim_start(s) == trim_start(t));
        let e = Seq::<char>::empty();
        if c == '\n' {
            lemma_lines_split(e, t);
            assert(e + seq!['\n'] + t =~= s);
            lemma_lines_newline_end(e);
            assert(e + seq!['\n'] =~= seq!['\n']);
            assert(lines(e) =~= Seq::<Seq<char>>::empty());
            assert(lines(s) =~= seq![e] + lines(t));
            assert forall|k: int| 0 <= k < lines(t).len() implies good_line(#[trigger] lines(t)[k]) by {
                assert(lines(t)[k] == lines(s)[k + 1]);
            }
            lemma_blank_whitespace(' ');
            lemma_restore_plain(e);
            lemma_blank_line(Seq::<Seq<char>>::empty(), e, lines(t));
            assert(Seq::<Seq<char>>::empty() + seq![e] + lines(t) =~= lines(s));
            assert(Seq::<Seq<char>>::empty() + lines(t) =~= lines(t));
            lemma_trim_start_content(t);
        } else {
            lemma_lines_cons(c, t);
            lemma_blank_whitespace(c);
            if t.len() == 0 {
                assert(trim_start(t) == t);
                lemma_restore_plain(seq![c]);
                lemma_single_line(seq![c]);
                assert(lines(t) =~= Seq::<Seq<char>>::empty());
                lemma_empty_line_content();
            } else {
                let lp = lines(s)[0];
                let l = lines(t)[0];
                let d = lines(t).drop_first();
                assert(lines(s) =~= seq![lp] + d);
                assert(lines(t) =~= seq![l] + d);
                assert(good_line(lp));
                if lp == seq![c] + l {
                    assert(lp[0] == c);
                    assert(!starts_with(lp, preserved_prefix())) by {
                        if starts_with(lp, preserved_prefix()) {
                            assert(lp.subrange(0, 45)[0] == lp[0]);
                        }
                    }
                    lemma_trim_start_cons_ws(c, l);
                    lemma_trim_cons_ws(c, l);
                    assert(!starts_with(l, preserved_prefix())) by {
                        if starts_with(l, preserved_prefix()) {
                            assert(l.subrange(0, 45)[0] == l[0]);
                            assert(trim_start(l) == l);
                        }
                    }
                    assert(good_line(l));
                    lemma_restore_plain(lp);
                    lemma_restore_plain(l);
                    lemma_line_swap(Seq::<Seq<char>>::empty(), lp, l, d);
                } else {
                    assert(l.len() == 0);
                    assert(l =~= Seq::<char>::empty());
                    assert(lp == seq![c] || lp =~= Seq::<char>::empty());
                    lemma_restore_plain(lp);
                    lemma_restore_plain(l);
                    assert(trim(lp) == trim(l));
                    assert(good_line(l)) by {
                        assert(trim_start(l) == l);
                    }
                    lemma_line_swap(Seq::<Seq<char>>::empty(), lp, l, d);
                }
                assert(Seq::<Seq<char>>::empty() + seq![lp] + d =~= lines(s));
                assert(Seq::<Seq<char>>::empty() + seq![l] + d =~= lines(t));
                assert forall|k: int| 0 <= k < lines(t).len() implies good_line(#[trigger] lines(t)[k]) by {
                    if k > 0 {
                        assert(lines(t)[k] == lines(s)[k]);
                    }
                }
                lemma_trim_start_content(t);
            }
        }
    }
}

/// A line of `s` is a line of `a` when the lines of `s` are those of `a`,
/// perhaps with more lines after them.
pub proof fn lemma_good_prefix(s: Seq<Seq<char>>, a: Seq<Seq<char>>, extra: Seq<Seq<char>>)
    requires
        s == a + extra,
        good_lines(s),
    ensures
        good_lines(a),
{
    assert forall|k: int| 0 <= k < a.len() implies good_line(#[trigger] a[k]) by {
        assert(s[k] == a[k]);
    }
}

/// Removing trailing whitespace keeps the settings of a text.
pub proof fn lemma_trim_end_content(s: Seq<char>)
    requires
        good_lines(lines(s)),
    ensures
        restored_content(trim_end(s)) == restored_content(s),
        good_lines(lines(trim_end(s))),
    decreases s.len(),
{
    lemma_prefix_facts();
    let e = Seq::<char>::empty();
    let none = Seq::<Seq<char>>::empty();
    lemma_blank_whitespace(' ');
    lemma_restore_plain(e);
    if s.len() == 0 || !is_ws(s.last()) {
    } else {
        let c = s.last();
        let n = s.len();
        if c == '\n' && n >= 2 && s[n - 2] == '\r' {
            let a = s.take(n - 2);
            assert(s =~= a + seq!['\r', '\n']);
            assert(s.drop_last() =~= a + seq!['\r']);
            assert((a + seq!['\r']).drop_last() =~= a);
            assert(trim_end(s) == trim_end(a + seq!['\r']));
            assert((a + seq!['\r']).last() == '\r');
            assert(trim_end(a + seq!['\r']) == trim_end(a));
            lemma_lines_crlf_end(a);
            if a.len() == 0 || a.last() == '\n' {
                lemma_good_prefix(lines(s), lines(a), seq![e]);
                lemma_blank_line(lines(a), e, none);
                assert(lines(a) + seq![e] + none =~= lines(s));
                assert(lines(a) + none =~= lines(a));
            } else {
                lemma_good_prefix(lines(s), lines(a), none);
                assert(lines(a) + none =~= lines(a));
            }
            lemma_trim_end_content(a);
        } else if c == '\n' {
            let a = s.drop_last();
            assert(s =~= a + seq!['\n']);
            if a.len() > 0 {
                assert(a.last() == s[n - 2]);
            }
            lemma_lines_newline_end(a);
            if a.len() == 0 || a.last() == '\n' {
                lemma_good_prefix(lines(s), lines(a), seq![e]);
                lemma_blank_line(lines(a), e, none);
                assert(lines(a) + seq![e] + none =~= lines(s));
                assert(lines(a) + none =~= lines(a));
            } else {
                lemma_good_prefix(lines(s), lines(a), none);
                assert(lines(a) + none =~= lines(a));
            }
            lemma_trim_end_content(a);
        } else {
            let a = s.drop_last();
            assert(s =~= a + seq![c]);
            lemma_lines_snoc(a, c);
            lemma_blank_whitespace(c);
            if a.len() == 0 || a.last() == '\n' {
                lemma_good_prefix(lines(s), lines(a), seq![seq![c]]);
                lemma_restore_plain(seq![c]);
                lemma_blank_line(lines(a), seq![c], none);
                assert(lines(a) + seq![seq![c]] + none =~= lines(s));
                assert(lines(a) + none =~= lines(a));
            } else {
                let l = lines(a).last();
                let d = lines(a).drop_last();
                let lc = l + seq![c];
                assert(lines(s) =~= d + seq![lc] + none);
                assert(lines(a) =~= d + seq![l] + none);
                assert(lines(s)[d.len() as int] == lc);
                assert(good_line(lc));
                assert(lc.last() == c);
                assert(!starts_with(lc, preserved_prefix())) by {
                    if starts_with(lc, preserved_prefix()) {
                        assert(lc.subrange(0, 45)[0] == lc[0]);
                        assert(trim_start(lc) == lc);
                        assert(preserved_form(lc));
                        assert(is_base64_char(lc[lc.len() - 1]));
                    }
                }
                assert(!starts_with(l, preserved_prefix())) by {
                    if starts_with(l, preserved_prefix()) {
                        assert(lc.subrange(0, 45) =~= l.subrange(0, 45));
                    }
                }
                lemma_trim_start_snoc(l, c);
                assert(good_line(l)) by {
                    if starts_with(trim_start(l), preserved_prefix()) {
                        assert(trim_start(l).len() > 0);
                        assert(trim_start(lc) == trim_start(l) + seq![c]);
                        assert(trim_start(lc).subrange(0, 45) =~= trim_start(l).subrange(0, 45));
                        assert(preserved_form(lc));
                        assert(is_base64_char(lc[lc.len() - 1]));
                    }
                }
                lemma_trim_snoc_ws(l, c);
                lemma_restore_plain(lc);
                lemma_restore_plain(l);
                lemma_line_swap(d, lc, l, none);
                assert forall|k: int| 0 <= k < lines(a).len() implies good_line(#[trigger] lines(a)[k]) by {
                    if k < d.len() {
                        assert(lines(a)[k] == lines(s)[k]);
                    }
                }
            }
            lemma_trim_end_content(a);
        }
    }
}

/// Trimming a text keeps its settings.
pub proof fn lemma_trim_content(s: Seq<char>)
    requires
        good_lines(lines(s)),
    ensures
        restored_content(trim(s)) == restored_content(s),
        good_lines(lines(trim(s))),
{
    lemma_trim_start_content(s);
    lemma_trim_end_content(trim_start(s));
}

/// A line that does not read as a preserved root setting, even after leading whitespace.
pub open spec fn plain_line(l: Seq<char>) -> bool {
    !starts_with(trim_start(l), preserved_prefix())
}

pub open spec fn plain_lines(ls: Seq<Seq<char>>) -> bool {
    forall|k: int| 0 <= k < ls.len() ==> plain_line(#[trigger] ls[k])
}

pub proof fn lemma_content_swap(pre: Seq<Seq<char>>, x: Seq<char>, y: Seq<char>, post: Seq<Seq<char>>)
    requires
        trim(x) == trim(y),
    ensures
        content(pre + seq![x] + post) == content(pre + seq![y] + post),
{
    lemma_content_concat(pre + seq![x], post);
    lemma_content_concat(pre, seq![x]);
    lemma_content_concat(pre + seq![y], post);
    lemma_content_concat(pre, seq![y]);
    assert(seq![x].drop_first() =~= Seq::<Seq<char>>::empty());
    assert(seq![y].drop_first() =~= Seq::<Seq<char>>::empty());
}

pub proof fn lemma_content_blank(pre: Seq<Seq<char>>, x: Seq<char>, post: Seq<Seq<char>>)
    requires
        blank(x),
    ensures
        content(pre + seq![x] + post) == content(pre + post),
{
    lemma_content_concat(pre + seq![x], post);
    lemma_content_concat(pre, seq![x]);
    lemma_content_concat(pre, post);
    assert(seq![x].drop_first() =~= Seq::<Seq<char>>::empty());
    assert(seq![x][0] == x);
    assert(content(Seq::<Seq<char>>::empty()) == Seq::<Seq<char>>::empty());
    assert(content(seq![x]) =~= Seq::<Seq<char>>::empty());
    assert(content(pre) + Seq::<Seq<char>>::empty() =~= content(pre));
}

/// Removing leading whitespace keeps the settings of a text (without decoding).
pub proof fn lemma_trim_start_pure(s: Seq<char>)
    ensures
        content(lines(trim_start(s))) == content(lines(s)),
    decreases s.len(),
{
    if s.len() == 0 || !is_ws(s[0]) {
    } else {
        let c = s[0];
        let t = s.drop_first();
        let e = Seq::<char>::empty();
        let none = Seq::<Seq<char>>::empty();
        assert(s =~= seq![c] + t);
        assert(trim_start(s) == trim_start(t));
        lemma_blank_whitespace(' ');
        if c == '\n' {
            lemma_lines_split(e, t);
            assert(e + seq!['\n'] + t =~= s);
            lemma_lines_newline_end(e);
            assert(e + seq!['\n'] =~= seq!['\n']);
            assert(lines(e) =~= none);
            assert(lines(s) =~= none + seq![e] + lines(t));
            lemma_content_blank(none, e, lines(t));
            assert(none + lines(t) =~= lines(t));
        } else {
            lemma_lines_cons(c, t);
            lemma_blank_whitespace(c);
            if t.len() == 0 {
                assert(lines(t) =~= none);
                assert(lines(s) =~= none + seq![seq![c]] + none);
                lemma_content_blank(none, seq![c], none);
                assert(none + none =~= none);
            } else {
                let lp = lines(s)[0];
                let l = lines(t)[0];
                let d = lines(t).drop_first();
                assert(lines(s) =~= none + seq![lp] + d);
                assert(lines(t) =~= none + seq![l] + d);
                if lp == seq![c] + l {
                    lemma_trim_cons_ws(c, l);
                } else {
                    assert(l =~= e);
                    assert(lp == seq![c] || lp =~= e);
                    assert(trim_start(e) == e);
                    assert(trim_end(e) == e);
                    assert(trim(lp) == trim(l));
                }
                lemma_content_swap(none, lp, l, d);
            }
        }
        lemma_trim_start_pure(t);
    }
}

/// Removing trailing whitespace keeps the settings of a text (without
/// decoding), and keeps lines plain.
pub proof fn lemma_trim_end_pure(s: Seq<char>)
    ensures
        content(lines(trim_end(s))) == content(lines(s)),
        plain_lines(lines(s)) ==> plain_lines(lines(trim_end(s))),
    decreases s.len(),
{
    let e = Seq::<char>::empty();
    let none = Seq::<Seq<char>>::empty();
    lemma_blank_whitespace(' ');
    if s.len() == 0 || !is_ws(s.last()) {
    } else {
        let c = s.last();
        let n = s.len();
        if c == '\n' && n >= 2 && s[n - 2] == '\r' {
            let a = s.take(n - 2);
            assert(s =~= a + seq!['\r', '\n']);
            assert(s.drop_last() =~= a + seq!['\r']);
            assert((a + seq!['\r']).drop_last() =~= a);
            assert((a + seq!['\r']).last() == '\r');
            assert(trim_end(s) == trim_end(a + seq!['\r']));
            assert(trim_end(a + seq!['\r']) == trim_end(a));
            lemma_lines_crlf_end(a);
            if a.len() == 0 || a.last() == '\n' {
                lemma_content_blank(lines(a), e, none);
                assert(lines(a) + seq![e] + none =~= lines(s));
                assert(lines(a) + none =~= lines(a));
                assert forall|k: int| 0 <= k < lines(a).len() && plain_lines(lines(s)) implies plain_line(#[trigger] lines(a)[k]) by {
                    assert(lines(s)[k] == lines(a)[k]);
                }
            }
            lemma_trim_end_pure(a);
        } else if c == '\n' {
            let a = s.drop_last();
            assert(s =~= a + seq!['\n']);
            if a.len() > 0 {
                assert(a.last() == s[n - 2]);
            }
            lemma_lines_newline_end(a);
            if a.len() == 0 || a.last() == '\n' {
                lemma_content_blank(lines(a), e, none);
                assert(lines(a) + seq![e] + none =~= lines(s));
                assert(lines(a) + none =~= lines(a));
                assert forall|k: int| 0 <= k < lines(a).len() && plain_lines(lines(s)) implies plain_line(#[trigger] lines(a)[k]) by {
                    assert(lines(s)[k] == lines(a)[k]);
                }
            } else {
                assert(lines(a) + none =~= lines(a));
            }
            lemma_trim_end_pure(a);
        } else {
            let a = s.drop_last();
            assert(s =~= a + seq![c]);
            lemma_trim_end_snoc_ws(a, c);
            assert(trim_end(s) == trim_end(a));
            lemma_lines_snoc(a, c);
            lemma_blank_whitespace(c);
            if a.len() == 0 || a.last() == '\n' {
                lemma_content_blank(lines(a), seq![c], none);
                assert(lines(a) + seq![seq![c]] + none =~= lines(s));
                assert(lines(a) + none =~= lines(a));
                assert forall|k: int| 0 <= k < lines(a).len() && plain_lines(lines(s)) implies plain_line(#[trigger] lines(a)[k]) by {
                    assert(lines(s)[k] == lines(a)[k]);
                }
            } else {
                let l = lines(a).last();
                let d = lines(a).drop_last();
                let lc = l + seq![c];
                assert(lines(s) =~= d + seq![lc] + none);
                assert(lines(a) =~= d + seq![l] + none);
                lemma_trim_snoc_ws(l, c);
                lemma_content_swap(d, lc, l, none);
                lemma_trim_start_snoc(l, c);
                if plain_lines(lines(s)) {
                    assert(plain_line(lines(s)[d.len() as int]));
                    assert(plain_line(l)) by {
                        lemma_prefix_facts();
                        if starts_with(trim_start(l), preserved_prefix()) {
                            assert(trim_start(l).len() > 0);
                            assert(trim_start(lc).subrange(0, 45) =~= trim_start(l).subrange(0, 45));
                        }
                    }
                    assert forall|k: int| 0 <= k < lines(a).len() implies plain_line(#[trigger] lines(a)[k]) by {
                        if k < d.len() {
                            assert(lines(a)[k] == lines(s)[k]);
                        }
                    }
                }
            }
            lemma_trim_end_pure(a);
        }
    }
}

/// The settings of lines joined by newlines are those of the lines.
pub proof fn lemma_join_pure(m: Seq<Seq<char>>)
    requires
        forall|k: int| 0 <= k < m.len() ==> crate::text::no_newline(#[trigger] m[k]),
    ensures
        content(lines(crate::text::join(m, seq!['\n']))) == content(m),
    decreases m.len(),
{
    let nl = seq!['\n'];
    let none = Seq::<Seq<char>>::empty();
    let e = Seq::<char>::empty();
    lemma_blank_whitespace(' ');
    if m.len() == 0 {
        assert(lines(e) =~= none);
        assert(m =~= none);
        assert(crate::text::join(m, nl) == e);
    } else if m.len() == 1 {
        let x = m[0];
        assert(crate::text::join(m, nl) == x);
        crate::text::lemma_newline_index_at(x, 0, x.len() as int);
        if x.len() == 0 {
            assert(x =~= e);
            assert(lines(x) =~= none);
            assert(m =~= none + seq![e] + none);
            lemma_content_blank(none, e, none);
        } else {
            assert(lines(x) =~= seq![x]);
            assert(m =~= seq![x]);
        }
    } else {
        let init = m.drop_last();
        let last = m.last();
        let ji = crate::text::join(init, nl);
        assert(crate::text::join(m, nl) == ji + nl + last);
        assert forall|k: int| 0 <= k < init.len() implies crate::text::no_newline(#[trigger] init[k]) by {
            assert(init[k] == m[k]);
        }
        lemma_join_pure(init);
        lemma_lines_split(ji, last);
        assert(crate::text::no_newline(m[m.len() - 1]));
        crate::text::lemma_newline_index_at(last, 0, last.len() as int);
        let ll = if last.len() == 0 {
            none
        } else {
            seq![last]
        };
        assert(lines(last) =~= ll);
        // the lines of `ji` followed by a newline hold the settings of `ji`
        if ji.len() == 0 || ji.last() == '\n' {
            lemma_lines_newline_end_any_or_blank(ji);
        } else {
            lemma_lines_newline_end_any(ji);
            let l = lines(ji).last();
            let d = lines(ji).drop_last();
            assert(lines(ji) =~= d + seq![l] + none);
            assert(lines(ji + nl) =~= d + seq![strip_cr(l)] + none);
            if l.len() > 0 && l.last() == '\r' {
                assert(l =~= l.drop_last() + seq!['\r']);
                lemma_trim_snoc_ws(l.drop_last(), '\r');
            }
            lemma_content_swap(d, strip_cr(l), l, none);
        }
        lemma_content_concat(lines(ji + nl), lines(last));
        lemma_content_concat(init, seq![last]);
        assert(m =~= init + seq![last]);
        if last.len() == 0 {
            assert(last =~= e);
            lemma_content_blank(init, e, none);
            assert(init + seq![e] + none =~= m);
            assert(init + none =~= init);
            assert(content(lines(last)) =~= none);
            assert(content(seq![last]) =~= none) by {
                lemma_content_blank(none, e, none);
                assert(none + seq![e] + none =~= seq![last]);
                assert(none + none =~= none);
            }
        } else {
            assert(content(lines(last)) == content(seq![last]));
        }
        assert(content(lines(ji + nl)) == content(lines(ji)));
        assert(content(lines(crate::text::join(m, nl))) == content(lines(ji)) + content(lines(last)));
        assert(content(m) == content(init) + content(seq![last]));
    }
}

/// Ending a text that is empty or ends with a newline by another newline adds
/// an empty line.
pub proof fn lemma_lines_newline_end_any_or_blank(a: Seq<char>)
    requires
        a.len() == 0 || a.last() == '\n',
    ensures
        content(lines(a + seq!['\n'])) == content(lines(a)),
        lines(a + seq!['\n']) == lines(a) + seq![Seq::<char>::empty()],
{
    lemma_lines_newline_end(a);
    lemma_blank_whitespace(' ');
    lemma_content_blank(lines(a), Seq::<char>::empty(), Seq::<Seq<char>>::empty());
    assert(lines(a) + seq![Seq::<char>::empty()] + Seq::<Seq<char>>::empty() =~= lines(a) + seq![
        Seq::<char>::empty(),
    ]);
    assert(lines(a) + Seq::<Seq<char>>::empty() =~= lines(a));
}

/// A line of the preserved configuration: a plain line or a preserved root
/// setting that decodes to a single line.
pub open spec fn kept_line(l: Seq<char>) -> bool {
    crate::text::no_newline(l) && (plain_line(l) || (preserved_form(l) && decodes_to_line(l)))
}

pub proof fn lemma_plain_not_prefixed(l: Seq<char>)
    requires
        plain_line(l),
    ensures
        !starts_with(l, preserved_prefix()),
        good_line(l),
        restore_line(l) == Some(l),
{
    lemma_prefix_facts();
    if starts_with(l, preserved_prefix()) {
        assert(l.subrange(0, 45)[0] == l[0]);
        assert(trim_start(l) == l);
    }
}

pub proof fn lemma_preserved_form_facts(l: Seq<char>)
    requires
        preserved_form(l),
        decodes_to_line(l),
    ensures
        good_line(l),
        l.len() > 0 && l.last() != '\r' && !is_ws(l.last()),
        trim_start(l) == l,
{
    lemma_prefix_facts();
    assert(is_base64_char(l[l.len() - 1]));
    assert(l.subrange(0, 45)[0] == l[0]);
}

/// The settings of kept lines joined by newlines, decoded, are those of the
/// lines decoded.
pub proof fn lemma_join_restored(m: Seq<Seq<char>>)
    requires
        forall|k: int| 0 <= k < m.len() ==> kept_line(#[trigger] m[k]),
    ensures
        restored_content(crate::text::join(m, seq!['\n'])) == restored_lines_content(m),
        good_lines(lines(crate::text::join(m, seq!['\n']))),
        m.len() > 0 && m.last().len() > 0 ==> lines(crate::text::join(m, seq!['\n'])).len() > 0
            && lines(crate::text::join(m, seq!['\n'])).last() == m.last(),
    decreases m.len(),
{
    let nl = seq!['\n'];
    let none = Seq::<Seq<char>>::empty();
    let e = Seq::<char>::empty();
    lemma_blank_whitespace(' ');
    lemma_restore_plain(e);
    lemma_empty_line_content();
    if m.len() == 0 {
        assert(lines(e) =~= none);
        assert(m =~= none);
        assert(crate::text::join(m, nl) == e);
    } else if m.len() == 1 {
        let x = m[0];
        assert(crate::text::join(m, nl) == x);
        assert(kept_line(x));
        crate::text::lemma_newline_index_at(x, 0, x.len() as int);
        if x.len() == 0 {
            assert(x =~= e);
            assert(lines(x) =~= none);
            assert(m =~= none + seq![e] + none);
            lemma_blank_line(none, e, none);
            assert(none + none =~= none);
        } else {
            assert(lines(x) =~= seq![x]);
            assert(m =~= seq![x]);
            if plain_line(x) {
                lemma_plain_not_prefixed(x);
            } else {
                lemma_preserved_form_facts(x);
            }
        }
    } else {
        let init = m.drop_last();
        let last = m.last();
        let ji = crate::text::join(init, nl);
        assert(crate::text::join(m, nl) == ji + nl + last);
        assert forall|k: int| 0 <= k < init.len() implies kept_line(#[trigger] init[k]) by {
            assert(init[k] == m[k]);
        }
        lemma_join_restored(init);
        lemma_lines_split(ji, last);
        assert(kept_line(m[m.len() - 1]));
        crate::text::lemma_newline_index_at(last, 0, last.len() as int);
        let ll = if last.len() == 0 {
            none
        } else {
            seq![last]
        };
        assert(lines(last) =~= ll);
        if last.len() > 0 {
            if plain_line(last) {
                lemma_plain_not_prefixed(last);
            } else {
                lemma_preserved_form_facts(last);
            }
        }
        // the lines of `ji` ended by a newline
        let lj = lines(ji + nl);
        if ji.len() == 0 || ji.last() == '\n' {
            lemma_lines_newline_end(ji);
            assert(lj =~= lines(ji) + seq![e] + none);
            lemma_blank_line(lines(ji), e, none);
            assert(lines(ji) + none =~= lines(ji));
            assert(restored_lines_content(lj) == restored_lines_content(lines(ji)));
            assert forall|k: int| 0 <= k < lj.len() implies good_line(#[trigger] lj[k]) by {
                if k < lines(ji).len() {
                    assert(lj[k] == lines(ji)[k]);
                } else {
                    assert(lj[k] == e);
                    assert(trim_start(e) == e);
                }
            }
        } else {
            lemma_lines_newline_end_any(ji);
            let l = lines(ji).last();
            let d = lines(ji).drop_last();
            assert(lines(ji) =~= d + seq![l] + none);
            assert(lj =~= d + seq![strip_cr(l)] + none);
            // `ji` does not end with a newline, so the last line of `init` is not empty
            assert(init.last().len() > 0) by {
                if init.last().len() == 0 {
                    if init.len() == 1 {
                        assert(ji == init[0]);
                    } else {
                        assert(ji == crate::text::join(init.drop_last(), nl) + nl + init.last());
                        assert(ji.last() == '\n');
                    }
                }
            }
            assert(l == init.last());
            assert(kept_line(init[init.len() - 1]));
            if plain_line(l) {
                lemma_plain_not_prefixed(l);
                if l.last() == '\r' {
                    let k = l.drop_last();
                    assert(l =~= k + seq!['\r']);
                    lemma_trim_snoc_ws(k, '\r');
                    lemma_trim_start_snoc(k, '\r');
                    assert(plain_line(k)) by {
                        lemma_prefix_facts();
                        if starts_with(trim_start(k), preserved_prefix()) {
                            assert(trim_start(k).len() > 0);
                            assert(trim_start(l).subrange(0, 45) =~= trim_start(k).subrange(0, 45));
                        }
                    }
                    lemma_plain_not_prefixed(k);
                    assert(strip_cr(l) == k);
                } else {
                    assert(strip_cr(l) == l);
                }
                lemma_plain_not_prefixed(strip_cr(l));
                lemma_line_swap(d, strip_cr(l), l, none);
            } else {
                lemma_preserved_form_facts(l);
                assert(strip_cr(l) == l);
            }
            assert(restored_lines_content(lj) == restored_lines_content(lines(ji)));
            assert forall|k: int| 0 <= k < lj.len() implies good_line(#[trigger] lj[k]) by {
                if k < d.len() {
                    assert(lj[k] == lines(ji)[k]);
                } else {
                    assert(lj[k] == strip_cr(l));
                }
            }
        }
        lemma_restored_content_of_lines(lj, ll);
        lemma_restored_content_of_lines(init, seq![last]);
        assert(m =~= init + seq![last]);
        assert(lines(crate::text::join(m, nl)) == lj + ll);
        if last.len() == 0 {
            assert(last =~= e);
            lemma_blank_line(init, e, none);
            assert(init + seq![e] + none =~= m);
            assert(init + none =~= init);
            assert(restored_lines_content(seq![last]) == Some(none)) by {
                lemma_single_line(e);
            }
            assert(lj + ll =~= lj);
        } else {
            assert(restored_lines_content(ll) == restored_lines_content(seq![last]));
            assert((lj + ll).last() == last);
        }
        assert forall|k: int| 0 <= k < (lj + ll).len() implies good_line(#[trigger] (lj + ll)[k]) by {
            if k < lj.len() {
                assert((lj + ll)[k] == lj[k]);
            } else {
                assert((lj + ll)[k] == last);
            }
        }
    }
}

/// Decoding good lines without newlines gives lines without newlines.
pub proof fn lemma_restored_no_newline(ls: Seq<Seq<char>>)
    requires
        good_lines(ls),
        forall|k: int| 0 <= k < ls.len() ==> crate::text::no_newline(#[trigger] ls[k]),
    ensures
        restore_lines(ls) matches Some(rl) ==> forall|k: int|
            0 <= k < rl.len() ==> crate::text::no_newline(#[trigger] rl[k]),
    decreases ls.len(),
{
    if ls.len() > 0 {
        let rest = ls.drop_first();
        assert forall|k: int| 0 <= k < rest.len() implies good_line(#[trigger] rest[k])
            && crate::text::no_newline(rest[k]) by {
            assert(rest[k] == ls[k + 1]);
        }
        lemma_restored_no_newline(rest);
        assert(good_line(ls[0]));
        assert(crate::text::no_newline(ls[0]));
        match restore_lines(ls) {
            Some(rl) => {
                let x = restore_line(ls[0]).unwrap();
                let r = restore_lines(rest).unwrap();
                assert(rl == seq![x] + r);
                if starts_with(ls[0], preserved_prefix()) {
                    lemma_prefix_facts();
                    assert(ls[0].subrange(0, 45)[0] == ls[0][0]);
                    assert(trim_start(ls[0]) == ls[0]);
                    assert(decodes_to_line(ls[0]));
                } else {
                    assert(x == ls[0]);
                }
                assert forall|k: int| 0 <= k < rl.len() implies crate::text::no_newline(#[trigger] rl[k]) by {
                    if k > 0 {
                        assert(rl[k] == r[k - 1]);
                    }
                }
            },
            None => {},
        }
    }
}

/// The first table header of a text starts a line.
pub proof fn lemma_table_offset_at_line(t: Seq<char>)
    ensures
        0 <= crate::managed_config::table_offset(t) <= t.len(),
        crate::managed_config::table_offset(t) == 0 || crate::managed_config::table_offset(t)
            == t.len() || t[crate::managed_config::table_offset(t) - 1] == '\n',
    decreases t.len(),
{
    crate::managed_config::lemma_table_offset(t);
    if t.len() > 0 {
        let i = newline_index(t, 0);
        crate::text::lemma_newline_index(t, 0);
        if i < t.len() {
            let rest = t.skip(i + 1);
            lemma_table_offset_at_line(rest);
            let r = crate::managed_config::table_offset(rest);
            if r > 0 && r < rest.len() {
                assert(t[i + 1 + r - 1] == rest[r - 1]);
            }
        }
    }
}

/// `find` gives the first place where the pattern occurs.
pub proof fn lemma_find_at(s: Seq<char>, p: Seq<char>, i: int)
    requires
        crate::text::occurs_at(s, p, i),
        forall|k: int| 0 <= k < i ==> !crate::text::occurs_at(s, p, k),
    ensures
        crate::text::find(s, p) == Some(i),
{
    lemma_find_from_at(s, p, 0, i);
}

proof fn lemma_find_from_at(s: Seq<char>, p: Seq<char>, from: int, i: int)
    requires
        0 <= from <= i,
        crate::text::occurs_at(s, p, i),
        forall|k: int| from <= k < i ==> !crate::text::occurs_at(s, p, k),
    ensures
        crate::text::find_from(s, p, from) == Some(i),
    decreases i - from,
{
    if from < i {
        lemma_find_from_at(s, p, from + 1, i);
    }
}

/// Where a line of a text lies in it.
pub proof fn lemma_line_range(t: Seq<char>, k: int) -> (r: (int, int))
    requires
        0 <= k < lines(t).len(),
    ensures
        0 <= r.0 <= r.1 <= t.len(),
        lines(t)[k] == t.subrange(r.0, r.1),
    decreases t.len(),
{
    let i = newline_index(t, 0);
    crate::text::lemma_newline_index(t, 0);
    if i >= t.len() {
        assert(lines(t) =~= seq![t]);
        assert(t.subrange(0, t.len() as int) =~= t);
        (0, t.len() as int)
    } else if k == 0 {
        let x = t.take(i);
        if x.len() > 0 && x.last() == '\r' {
            assert(strip_cr(x) =~= t.subrange(0, i - 1));
            (0, i - 1)
        } else {
            assert(strip_cr(x) =~= t.subrange(0, i));
            (0, i)
        }
    } else {
        let rest = t.skip(i + 1);
        assert(lines(t)[k] == lines(rest)[k - 1]);
        let (a, b) = lemma_line_range(rest, k - 1);
        assert(rest.subrange(a, b) =~= t.subrange(a + i + 1, b + i + 1));
        (a + i + 1, b + i + 1)
    }
}

/// An occurrence inside a part of a text is an occurrence in the text.
pub proof fn lemma_occurs_in_part(t: Seq<char>, a: int, b: int, p: Seq<char>, j: int)
    requires
        0 <= a <= b <= t.len(),
        crate::text::occurs_at(t.subrange(a, b), p, j),
    ensures
        crate::text::occurs_at(t, p, a + j),
{
    assert(t.subrange(a, b).subrange(j, j + p.len()) =~= t.subrange(a + j, a + j + p.len()));
}

/// A pattern without newlines that occurs in lines joined by newlines occurs in one of them.
pub proof fn lemma_join_occurrence(m: Seq<Seq<char>>, p: Seq<char>, j: int) -> (r: (int, int))
    requires
        p.len() > 0,
        crate::text::no_newline(p),
        crate::text::occurs_at(crate::text::join(m, seq!['\n']), p, j),
    ensures
        0 <= r.0 < m.len(),
        crate::text::occurs_at(m[r.0], p, r.1),
    decreases m.len(),
{
    let nl = seq!['\n'];
    let t = crate::text::join(m, nl);
    if m.len() == 0 {
        assert(false);
        (0, 0)
    } else if m.len() == 1 {
        assert(t == m[0]);
        (0, j)
    } else {
        let init = m.drop_last();
        let ji = crate::text::join(init, nl);
        assert(t == ji + nl + m.last());
        if j + p.len() <= ji.len() {
            assert(t.subrange(j, j + p.len()) =~= ji.subrange(j, j + p.len()));
            let (k, j2) = lemma_join_occurrence(init, p, j);
            assert(init[k] == m[k]);
            (k, j2)
        } else if j > ji.len() {
            let x = m.last();
            assert(t.subrange(j, j + p.len()) =~= x.subrange(j - ji.len() - 1, j - ji.len() - 1
                + p.len()));
            (m.len() - 1, j - ji.len() - 1)
        } else {
            assert(t[ji.len() as int] == '\n');
            assert(t.subrange(j, j + p.len())[ji.len() - j] == t[ji.len() as int]);
            assert(p[ji.len() - j] == '\n');
            assert(false);
            (0, 0)
        }
    }
}

pub proof fn lemma_marker_facts()
    ensures
        begin_marker().len() > 2 && begin_marker()[2] == '>',
        end_marker().len() > 2 && end_marker()[2] == '<',
        crate::text::no_newline(begin_marker()),
        crate::text::no_newline(end_marker()),
        forall|i: int| 0 <= i < preserved_prefix().len() ==> #[trigger] preserved_prefix()[i] != '<'
            && preserved_prefix()[i] != '>',
        forall|c: char| is_base64_char(c) ==> c != '<' && c != '>',
{
    reveal_strlit("# >>> codex-plus-plus enterprise managed block >>>");
    reveal_strlit("# <<< codex-plus-plus enterprise managed block <<<");
    reveal_strlit("# codex-plus-plus enterprise preserved-root: ");
}

/// A preserved root setting holds neither marker.
pub proof fn lemma_preserved_no_marker(l: Seq<char>)
    requires
        preserved_form(l),
    ensures
        !crate::text::contains(l, begin_marker()),
        !crate::text::contains(l, end_marker()),
{
    lemma_marker_facts();
    lemma_prefix_facts();
    assert forall|j: int| !crate::text::occurs_at(l, begin_marker(), j) by {
        if crate::text::occurs_at(l, begin_marker(), j) {
            assert(l.subrange(j, j + begin_marker().len())[2] == l[j + 2]);
            if j + 2 < 45 {
                assert(l.subrange(0, 45)[j + 2] == l[j + 2]);
            } else {
                assert(is_base64_char(l[j + 2]));
            }
        }
    }
    assert forall|j: int| !crate::text::occurs_at(l, end_marker(), j) by {
        if crate::text::occurs_at(l, end_marker(), j) {
            assert(l.subrange(j, j + end_marker().len())[2] == l[j + 2]);
            if j + 2 < 45 {
                assert(l.subrange(0, 45)[j + 2] == l[j + 2]);
            } else {
                assert(is_base64_char(l[j + 2]));
            }
        }
    }
}

/// A pattern that occurs in a part of a text occurs in the text.
pub proof fn lemma_contains_part(t: Seq<char>, a: int, b: int, p: Seq<char>)
    requires
        0 <= a <= b <= t.len(),
        crate::text::contains(t.subrange(a, b), p),
    ensures
        crate::text::contains(t, p),
{
    let j = choose|j: int| crate::text::occurs_at(t.subrange(a, b), p, j);
    lemma_occurs_in_part(t, a, b, p, j);
}

/// A pattern without newlines that occurs in lines joined by newlines occurs
/// in one of the lines.
pub proof fn lemma_join_contains(m: Seq<Seq<char>>, p: Seq<char>)
    requires
        p.len() > 0,
        crate::text::no_newline(p),
        crate::text::contains(crate::text::join(m, seq!['\n']), p),
    ensures
        exists|k: int| 0 <= k < m.len() && crate::text::contains(#[trigger] m[k], p),
{
    let j = choose|j: int| crate::text::occurs_at(crate::text::join(m, seq!['\n']), p, j);
    let (k, j2) = lemma_join_occurrence(m, p, j);
    assert(crate::text::contains(m[k], p));
}

/// Every line of the text, after leading whitespace, is not a preserved root setting.
pub open spec fn plain_text(t: Seq<char>) -> bool {
    plain_lines(lines(t))
}

/// What preserving the root selections of `t` gave for each of its lines.
pub open spec fn preserved_each(t: Seq<char>) -> bool {
    let ls = lines(t);
    &&& preserve_lines(ls, true).len() == ls.len()
    &&& forall|k: int| 0 <= k < ls.len() ==> preserved_as(ls[k], #[trigger] preserve_lines(ls, true)[k])
}

proof fn lemma_plain_restores(ls: Seq<Seq<char>>)
    requires
        plain_lines(ls),
    ensures
        restore_lines(ls) == Some(ls),
        good_lines(ls),
{
    assert forall|k: int| 0 <= k < ls.len() implies restore_line(#[trigger] ls[k]) == Some(ls[k])
        && good_line(ls[k]) by {
        lemma_plain_not_prefixed(ls[k]);
    }
    crate::managed_config::lemma_restore_pointwise(ls, ls);
}

/// The configuration with its root selections preserved holds the settings
/// of the configuration, and no marker.
pub proof fn lemma_preserved_config(clean: Seq<char>)
    requires
        plain_text(clean),
        !crate::text::contains(clean, begin_marker()),
        !crate::text::contains(clean, end_marker()),
        preserved_each(trim_end(clean)),
    ensures
        restored_content(crate::text::join(preserve_lines(lines(trim_end(clean)), true), seq!['\n']))
            == Some(content(lines(clean))),
        good_lines(lines(crate::text::join(preserve_lines(lines(trim_end(clean)), true), seq!['\n']))),
        !crate::text::contains(
            crate::text::join(preserve_lines(lines(trim_end(clean)), true), seq!['\n']),
            begin_marker(),
        ),
        !crate::text::contains(
            crate::text::join(preserve_lines(lines(trim_end(clean)), true), seq!['\n']),
            end_marker(),
        ),
{
    let t = trim_end(clean);
    let lc = lines(t);
    let lp = preserve_lines(lc, true);
    let p = crate::text::join(lp, seq!['\n']);
    lemma_prefix_facts();
    lemma_marker_facts();
    lemma_trim_end_pure(clean);
    crate::text::lemma_lines_no_newline(t);
    crate::text::lemma_trim_end_is_prefix(clean);
    assert forall|k: int| 0 <= k < lp.len() implies kept_line(#[trigger] lp[k]) && restore_line(lp[k])
        == Some(lc[k]) && (lp[k] == lc[k] || preserved_form(lp[k])) by {
        assert(preserved_as(lc[k], lp[k]));
        assert(plain_line(lc[k]));
        lemma_plain_not_prefixed(lc[k]);
        if lp[k] != lc[k] {
            let m = lp[k];
            assert(m.subrange(0, 45) =~= preserved_prefix());
            assert(preserved_form(m));
            crate::managed_config::lemma_restore_preserved(lc[k], m);
            assert(decodes_to_line(m));
            assert forall|j: int| 0 <= j < m.len() implies m[j] != '\n' by {
                if j < 45 {
                    assert(m.subrange(0, 45)[j] == m[j]);
                } else {
                    assert(is_base64_char(m[j]));
                }
            }
        }
    }
    lemma_join_restored(lp);
    crate::managed_config::lemma_restore_pointwise(lp, lc);
    lemma_plain_restores(lc);
    lemma_plain_restores(lines(clean));
    lemma_trim_end_content(clean);
    assert(!crate::text::contains(p, begin_marker())) by {
        if crate::text::contains(p, begin_marker()) {
            lemma_join_contains(lp, begin_marker());
            let k = choose|k: int| 0 <= k < lp.len() && crate::text::contains(#[trigger] lp[k], begin_marker());
            if lp[k] == lc[k] {
                let (a, b) = lemma_line_range(t, k);
                lemma_contains_part(t, a, b, begin_marker());
                lemma_contains_part(clean, 0, t.len() as int, begin_marker());
            } else {
                lemma_preserved_no_marker(lp[k]);
            }
        }
    }
    assert(!crate::text::contains(p, end_marker())) by {
        if crate::text::contains(p, end_marker()) {
            lemma_join_contains(lp, end_marker());
            let k = choose|k: int| 0 <= k < lp.len() && crate::text::contains(#[trigger] lp[k], end_marker());
            if lp[k] == lc[k] {
                let (a, b) = lemma_line_range(t, k);
                lemma_contains_part(t, a, b, end_marker());
                lemma_contains_part(clean, 0, t.len() as int, end_marker());
            } else {
                lemma_preserved_no_marker(lp[k]);
            }
        }
    }
}

/// Joining two texts by a newline: the settings of both, and good lines.
pub proof fn lemma_split_good(a: Seq<char>, b: Seq<char>)
    requires
        a.len() == 0 || !is_ws(a.last()),
        good_lines(lines(a)),
        good_lines(lines(b)),
    ensures
        restored_content(a + seq!['\n'] + b) == opt_cat(restored_content(a), restored_content(b)),
        good_lines(lines(a + seq!['\n'] + b)),
{
    let e = Seq::<char>::empty();
    lemma_restored_content_split(a, b);
    lemma_lines_split(a, b);
    lemma_lines_newline_end(a);
    let la = lines(a + seq!['\n']);
    let all = lines(a + seq!['\n'] + b);
    assert forall|k: int| 0 <= k < all.len() implies good_line(#[trigger] all[k]) by {
        if k < la.len() {
            assert(all[k] == la[k]);
            if k < lines(a).len() {
                assert(la[k] == lines(a)[k]);
            } else {
                assert(la[k] == e);
                assert(trim_start(e) == e);
                lemma_blank_whitespace(' ');
            }
        } else {
            assert(all[k] == lines(b)[k - la.len()]);
        }
    }
}

pub proof fn lemma_empty_text_good()
    ensures
        good_lines(lines(Seq::<char>::empty())),
        restored_content(Seq::<char>::empty()) == Some(Seq::<Seq<char>>::empty()),
{
    assert(lines(Seq::<char>::empty()) =~= Seq::<Seq<char>>::empty());
    lemma_empty_line_content();
}

/// A newline in front of a text adds no setting.
pub proof fn lemma_leading_newline(b: Seq<char>)
    requires
        good_lines(lines(b)),
    ensures
        restored_content(seq!['\n'] + b) == restored_content(b),
        good_lines(lines(seq!['\n'] + b)),
{
    let e = Seq::<char>::empty();
    lemma_empty_text_good();
    lemma_split_good(e, b);
    assert(e + seq!['\n'] + b =~= seq!['\n'] + b);
    match restored_content(b) {
        Some(x) => {
            assert(Seq::<Seq<char>>::empty() + x =~= x);
        },
        None => {},
    }
}

/// A newline after a text whose end is not whitespace adds no setting.
pub proof fn lemma_trailing_newline(a: Seq<char>)
    requires
        a.len() == 0 || !is_ws(a.last()),
        good_lines(lines(a)),
    ensures
        restored_content(a + seq!['\n']) == restored_content(a),
        good_lines(lines(a + seq!['\n'])),
{
    let e = Seq::<char>::empty();
    lemma_empty_text_good();
    lemma_split_good(a, e);
    assert(a + seq!['\n'] + e =~= a + seq!['\n']);
    match restored_content(a) {
        Some(x) => {
            assert(x + Seq::<Seq<char>>::empty() =~= x);
        },
        None => {},
    }
}

/// What comes before the block in the written configuration.
pub open spec fn before_block(r: Seq<char>) -> Seq<char> {
    if r.len() > 0 {
        r + seq!['\n', '\n']
    } else {
        Seq::<char>::empty()
    }
}

/// What comes after the block in the written configuration.
pub open spec fn after_block(t: Seq<char>) -> Seq<char> {
    if t.len() > 0 {
        seq!['\n', '\n'] + t + seq!['\n']
    } else {
        seq!['\n']
    }
}

/// The written configuration is the block with the root settings before it
/// and the tables after it.
pub proof fn lemma_sections_text(r: Seq<char>, block: Seq<char>, t: Seq<char>)
    ensures
        crate::text::join(crate::managed_config::config_sections(r, block, t), "\n\n"@) + "\n"@
            == before_block(r) + block + after_block(t),
{
    reveal_strlit("\n\n");
    reveal_strlit("\n");
    let s2 = seq!['\n', '\n'];
    assert("\n\n"@ =~= s2);
    assert("\n"@ =~= seq!['\n']);
    let secs = crate::managed_config::config_sections(r, block, t);
    let e = Seq::<Seq<char>>::empty();
    if r.len() > 0 && t.len() > 0 {
        assert(secs =~= seq![r, block, t]);
        assert(secs.drop_last() =~= seq![r, block]);
        assert(secs.drop_last().drop_last() =~= seq![r]);
        assert(crate::text::join(seq![r], s2) == r);
        assert(seq![r, block].drop_last() =~= seq![r]);
        assert(crate::text::join(seq![r, block], s2) == r + s2 + block);
        assert(secs.last() == t);
        assert(crate::text::join(secs, s2) =~= r + s2 + block + s2 + t);
    } else if r.len() > 0 {
        assert(secs =~= seq![r, block]);
        assert(secs.drop_last() =~= seq![r]);
        assert(crate::text::join(seq![r], s2) == r);
        assert(secs.last() == block);
        assert(crate::text::join(secs, s2) =~= r + s2 + block);
    } else if t.len() > 0 {
        assert(secs =~= seq![block, t]);
        assert(secs.drop_last() =~= seq![block]);
        assert(crate::text::join(seq![block], s2) == block);
        assert(secs.last() == t);
        assert(crate::text::join(secs, s2) =~= block + s2 + t);
    } else {
        assert(secs =~= seq![block]);
        assert(crate::text::join(secs, s2) =~= block);
    }
    assert(crate::text::join(secs, s2) + seq!['\n'] =~= before_block(r) + block + after_block(t));
}

/// No occurrence of a pattern without newlines starts before the block,
/// when the root settings do not hold it.
proof fn lemma_no_marker_before(r: Seq<char>, u: Seq<char>, p: Seq<char>, k: int)
    requires
        p.len() > 0,
        crate::text::no_newline(p),
        !crate::text::contains(r, p),
        u.len() >= before_block(r).len(),
        u.take(before_block(r).len() as int) == before_block(r),
        0 <= k < before_block(r).len(),
    ensures
        !crate::text::occurs_at(u, p, k),
{
    if crate::text::occurs_at(u, p, k) {
        let n = r.len();
        assert(r.len() > 0);
        if k + p.len() <= n {
            assert(u.subrange(k, k + p.len()) =~= r.subrange(k, k + p.len())) by {
                assert forall|i: int| k <= i < k + p.len() implies u[i] == r[i] by {
                    assert(u.take(before_block(r).len() as int)[i] == u[i]);
                    assert(before_block(r)[i] == r[i]);
                }
            }
            assert(crate::text::occurs_at(r, p, k));
        } else {
            let m = if k > n {
                k
            } else {
                n as int
            };
            assert(u.take(before_block(r).len() as int)[m] == u[m]);
            assert(before_block(r)[m] == '\n');
            assert(u.subrange(k, k + p.len())[m - k] == u[m]);
        }
    }
}

/// Cutting out the block gives back the text around it, trimmed.
pub proof fn lemma_block_removed(r: Seq<char>, block: Seq<char>, post: Seq<char>)
    requires
        !crate::text::contains(r, begin_marker()),
        !crate::text::contains(r, end_marker()),
        starts_with(block, begin_marker()),
        crate::text::find(block, end_marker()) == Some(block.len() - end_marker().len()),
    ensures
        crate::managed_config::marked_block_removed(before_block(r) + block + post) == Some(
            trim(before_block(r) + post),
        ),
{
    lemma_marker_facts();
    let pre = before_block(r);
    let u = pre + block + post;
    let b = pre.len() as int;
    let el = end_marker().len() as int;
    crate::text::lemma_find(block, end_marker());
    let e = b + block.len() - el;
    assert(u.take(b) =~= pre);
    // the begin marker
    assert(u.subrange(b, b + begin_marker().len()) =~= block.subrange(0, begin_marker().len() as int));
    assert forall|k: int| 0 <= k < b implies !crate::text::occurs_at(u, begin_marker(), k) by {
        lemma_no_marker_before(r, u, begin_marker(), k);
    }
    lemma_find_at(u, begin_marker(), b);
    // the end marker
    assert(u.subrange(e, e + el) =~= block.subrange(block.len() - el, block.len() as int));
    assert forall|k: int| 0 <= k < e implies !crate::text::occurs_at(u, end_marker(), k) by {
        if k < b {
            lemma_no_marker_before(r, u, end_marker(), k);
        } else if crate::text::occurs_at(u, end_marker(), k) {
            assert(u.subrange(k, k + el) =~= block.subrange(k - b, k - b + el));
            assert(crate::text::occurs_at(block, end_marker(), k - b));
        }
    }
    lemma_find_at(u, end_marker(), e);
    assert(u.skip(e + el) =~= post);
}

/// The text left around a removed block holds the settings of the root
/// settings and of the tables.
pub proof fn lemma_around_block(r: Seq<char>, t: Seq<char>)
    requires
        r.len() == 0 || !is_ws(r.last()),
        t.len() == 0 || !is_ws(t.last()),
        good_lines(lines(r)),
        good_lines(lines(t)),
    ensures
        restored_content(before_block(r) + after_block(t)) == opt_cat(
            restored_content(r),
            restored_content(t),
        ),
        good_lines(lines(before_block(r) + after_block(t))),
{
    let nl = seq!['\n'];
    let e = Seq::<char>::empty();
    let none = Seq::<Seq<char>>::empty();
    lemma_empty_text_good();
    // what follows the root settings
    let tail = if t.len() > 0 {
        lemma_trailing_newline(t);
        lemma_leading_newline(t + nl);
        lemma_leading_newline(nl + (t + nl));
        lemma_leading_newline(nl + (nl + (t + nl)));
        nl + (nl + (nl + (t + nl)))
    } else {
        lemma_leading_newline(e);
        assert(nl + e =~= nl);
        lemma_leading_newline(nl);
        nl + nl
    };
    assert(restored_content(tail) == restored_content(t)) by {
        if t.len() == 0 {
            assert(restored_content(t) == restored_content(e));
        }
    }
    if r.len() > 0 {
        lemma_split_good(r, tail);
        if t.len() > 0 {
            assert(before_block(r) + after_block(t) =~= r + nl + tail);
        } else {
            assert(before_block(r) + after_block(t) =~= r + nl + tail);
        }
    } else {
        assert(r =~= e);
        if t.len() > 0 {
            lemma_trailing_newline(t);
            lemma_leading_newline(t + nl);
            lemma_leading_newline(nl + (t + nl));
            assert(before_block(r) + after_block(t) =~= nl + (nl + (t + nl)));
        } else {
            assert(before_block(r) + after_block(t) =~= nl + e);
            lemma_leading_newline(e);
        }
    }
    match (restored_content(r), restored_content(t)) {
        (Some(x), Some(y)) => {
            if r.len() == 0 {
                assert(x == none);
                assert(none + y =~= y);
            }
        },
        _ => {},
    }
}

/// Writing the managed block into a configuration and removing it again gives
/// back the configuration's settings: the lines that are not blank, trimmed,
/// in order. Stated for configurations that hold neither marker and no line
/// that reads (after leading whitespace) as a preserved root setting, for a
/// block that starts with the begin marker and holds the end marker only at
/// its end, and for the preserving of each root line that
/// `preserve_root_selections` reports.
pub proof fn lemma_managed_config_round_trip(clean: Seq<char>, block: Seq<char>)
    requires
        plain_text(clean),
        !crate::text::contains(clean, begin_marker()),
        !crate::text::contains(clean, end_marker()),
        preserved_each(trim_end(clean)),
        starts_with(block, begin_marker()),
        crate::text::find(block, end_marker()) == Some(block.len() - end_marker().len()),
    ensures
        crate::managed_config::marked_block_removed(
            crate::managed_config::merged_config(clean, block),
        ) matches Some(x) && crate::managed_config::restored_config(x) matches Some(y) && content(
            lines(y),
        ) == content(lines(clean)),
{
    let nl = seq!['\n'];
    let e = Seq::<char>::empty();
    reveal_strlit("\n");
    assert("\n"@ =~= nl);
    lemma_preserved_config(clean);
    let p = crate::text::join(preserve_lines(lines(trim_end(clean)), true), nl);
    assert(p == crate::managed_config::spec_preserve_root_selections(trim_end(clean)));
    let off = crate::managed_config::table_offset(p);
    lemma_table_offset_at_line(p);
    let q = p.take(off);
    let tr = p.skip(off);
    assert(lines(p) == lines(q) + lines(tr)) by {
        if off == 0 {
            assert(q =~= e);
            assert(tr =~= p);
            assert(lines(e) =~= Seq::<Seq<char>>::empty());
            assert(lines(q) + lines(tr) =~= lines(p));
        } else if off == p.len() {
            assert(q =~= p);
            assert(tr =~= e);
            assert(lines(e) =~= Seq::<Seq<char>>::empty());
            assert(lines(q) + lines(tr) =~= lines(p));
        } else {
            let q0 = p.take(off - 1);
            assert(p =~= q0 + nl + tr);
            assert(q =~= q0 + nl);
            lemma_lines_split(q0, tr);
        }
    }
    lemma_good_prefix(lines(p), lines(q), lines(tr));
    assert(good_lines(lines(tr))) by {
        assert forall|k: int| 0 <= k < lines(tr).len() implies good_line(#[trigger] lines(tr)[k]) by {
            assert(lines(p)[lines(q).len() + k] == lines(tr)[k]);
        }
    }
    lemma_restored_content_of_lines(lines(q), lines(tr));
    let r = trim(q);
    let t = trim(tr);
    lemma_trim_content(q);
    lemma_trim_content(tr);
    crate::text::lemma_trim_end_is_prefix(trim_start(q));
    crate::text::lemma_trim_end_is_prefix(trim_start(tr));
    crate::text::lemma_trim_start_is_suffix(q);
    let i = q.len() - trim_start(q).len();
    assert(r =~= p.subrange(i, i + r.len()));
    assert(!crate::text::contains(r, begin_marker())) by {
        if crate::text::contains(r, begin_marker()) {
            lemma_contains_part(p, i, i + r.len(), begin_marker());
        }
    }
    assert(!crate::text::contains(r, end_marker())) by {
        if crate::text::contains(r, end_marker()) {
            lemma_contains_part(p, i, i + r.len(), end_marker());
        }
    }
    lemma_sections_text(r, block, t);
    assert(crate::managed_config::merged_config(clean, block) == before_block(r) + block
        + after_block(t));
    lemma_block_removed(r, block, after_block(t));
    lemma_around_block(r, t);
    let around = before_block(r) + after_block(t);
    lemma_trim_content(around);
    let x = trim(around);
    assert(restored_content(x) == Some(content(lines(clean))));
    let rl = restore_lines(lines(x)).unwrap();
    crate::text::lemma_lines_no_newline(x);
    lemma_restored_no_newline(lines(x));
    assert(crate::managed_config::spec_restore_root_selections(x) == Some(
        crate::text::join(rl, nl),
    ));
    let j = crate::text::join(rl, nl);
    lemma_join_pure(rl);
    lemma_trim_start_pure(j);
    lemma_trim_end_pure(trim_start(j));
}

/// A configuration written around a block that holds both markers reads as managed.
pub proof fn lemma_written_config_is_managed(clean: Seq<char>, block: Seq<char>)
    requires
        crate::text::contains(block, begin_marker()),
        crate::text::contains(block, end_marker()),
    ensures
        crate::managed_config::spec_config_is_managed(
            crate::managed_config::merged_config(clean, block),
        ),
{
    let p = crate::managed_config::spec_preserve_root_selections(trim_end(clean));
    let off = crate::managed_config::table_offset(p);
    let r = trim(p.take(off));
    let t = trim(p.skip(off));
    lemma_sections_text(r, block, t);
    let u = before_block(r) + block + after_block(t);
    let b = before_block(r).len() as int;
    assert(u.subrange(b, b + block.len()) =~= block);
    lemma_contains_part(u, b, b + block.len(), begin_marker());
    lemma_contains_part(u, b, b + block.len(), end_marker());
}

} // verus!
