//! Character access to a piece of text, and the way a line falls into fields.

use vstd::prelude::*;
use vstd::string::*;

verus! {

/// A piece of text together with what is needed to reach its characters by
/// position. Text that is pure ASCII is read in constant time per character.
pub struct Text<'a> {
    text: &'a str,
    ascii: bool,
    len: usize,
}

impl<'a> Text<'a> {
    pub closed spec fn view(&self) -> Seq<char> {
        self.text@
    }

    pub closed spec fn wf(&self) -> bool {
        &&& self.len == self.text@.len()
        &&& self.ascii ==> is_ascii(self.text)
    }

    pub fn new(text: &'a str) -> (r: Self)
        ensures
            r.wf(),
            r@ == text@,
    {
        let ascii = text.is_ascii();
        let len = if ascii {
            proof {
                is_ascii_spec_bytes(text);
            }
            text.as_bytes().len()
        } else {
            text.unicode_len()
        };
        Text { text, ascii, len }
    }

    pub fn len(&self) -> (n: usize)
        requires
            self.wf(),
        ensures
            n == self@.len(),
    {
        self.len
    }

    pub fn char_at(&self, i: usize) -> (c: char)
        requires
            self.wf(),
            i < self@.len(),
        ensures
            c == self@[i as int],
    {
        if self.ascii {
            let b = self.text.get_ascii(i);
            b as char
        } else {
            self.text.get_char(i)
        }
    }

    pub fn slice(&self, from: usize, to: usize) -> (r: &'a str)
        requires
            self.wf(),
            from <= to <= self@.len(),
        ensures
            r@ == self@.subrange(from as int, to as int),
    {
        if self.ascii {
            self.text.substring_ascii(from, to)
        } else {
            self.text.substring_char(from, to)
        }
    }
}

/// Whether a character counts as white space.
pub uninterp spec fn white_space(c: char) -> bool;

/// Calls `char::is_whitespace`, which tells whether a character has the
/// Unicode property `White_Space`. Nothing is claimed of the answer but that
/// it depends on the character alone.
#[verifier::external_body]
fn is_white_space(c: char) -> (r: bool)
    ensures
        r == white_space(c),
{
    c.is_whitespace()
}

/// The first position at or after `from` that holds no white space.
pub open spec fn skip_space(s: Seq<char>, from: int) -> int
    decreases s.len() - from,
{
    if from >= s.len() || !white_space(s[from]) {
        from
    } else {
        skip_space(s, from + 1)
    }
}

/// The position after the last character before `to`, and not before `from`,
/// that is no white space.
pub open spec fn skip_space_back(s: Seq<char>, from: int, to: int) -> int
    decreases to - from,
{
    if to <= from || !white_space(s[to - 1]) {
        to
    } else {
        skip_space_back(s, from, to - 1)
    }
}

/// `s` without the white space at its start and at its end.
pub open spec fn trimmed(s: Seq<char>) -> Seq<char> {
    let a = skip_space(s, 0);
    s.subrange(a, skip_space_back(s, a, s.len() as int))
}

/// Takes the white space off both ends of `text`.
pub fn trim<'a>(text: &'a str) -> (r: &'a str)
    ensures
        r@ == trimmed(text@),
{
    let t = Text::new(text);
    let n = t.len();
    let mut a: usize = 0;
    while a < n && is_white_space(t.char_at(a))
        invariant
            t.wf(),
            t@ == text@,
            n == t@.len(),
            a <= n,
            skip_space(text@, a as int) == skip_space(text@, 0),
        decreases n - a,
    {
        a = a + 1;
    }
    let mut b: usize = n;
    while b > a && is_white_space(t.char_at(b - 1))
        invariant
            t.wf(),
            t@ == text@,
            n == t@.len(),
            a <= b <= n,
            skip_space_back(text@, a as int, b as int) == skip_space_back(
                text@,
                a as int,
                n as int,
            ),
        decreases b - a,
    {
        b = b - 1;
    }
    t.slice(a, b)
}

/// A line without the terminator at its end: one line feed, and one carriage
/// return before it, are taken off where they are there.
pub open spec fn strip_terminator(s: Seq<char>) -> Seq<char> {
    let a = if s.len() > 0 && s.last() == '\n' {
        s.drop_last()
    } else {
        s
    };
    if a.len() > 0 && a.last() == '\r' {
        a.drop_last()
    } else {
        a
    }
}

/// The position of the first space at or after `from`, or the length of `s`
/// where there is none.
pub open spec fn field_end(s: Seq<char>, from: int) -> int
    decreases s.len() - from,
{
    if from >= s.len() || s[from] == ' ' {
        from
    } else {
        field_end(s, from + 1)
    }
}

/// Where field `n` lies among the fields of `s` that start at `from`; fields
/// are parted by single spaces, so two spaces in a row hold an empty field.
pub open spec fn field_bounds(s: Seq<char>, from: int, n: nat) -> Option<(int, int)>
    decreases n,
{
    let end = field_end(s, from);
    if n == 0 {
        Some((from, end))
    } else if end >= s.len() {
        None
    } else {
        field_bounds(s, end + 1, (n - 1) as nat)
    }
}

/// Field `n` of `s`, counted from zero, if `s` has that many fields.
pub open spec fn field(s: Seq<char>, n: nat) -> Option<Seq<char>> {
    match field_bounds(s, 0, n) {
        Some((a, b)) => Some(s.subrange(a, b)),
        None => None,
    }
}

pub proof fn lemma_field_end_bounds(s: Seq<char>, from: int)
    requires
        0 <= from <= s.len(),
    ensures
        from <= field_end(s, from) <= s.len(),
        field_end(s, from) < s.len() ==> s[field_end(s, from)] == ' ',
        forall|i: int| from <= i < field_end(s, from) ==> s[i] != ' ',
    decreases s.len() - from,
{
    if from < s.len() && s[from] != ' ' {
        lemma_field_end_bounds(s, from + 1);
    }
}

/// The field after field `n` starts one past the space that ends field `n`,
/// and there is none once a field has run to the end of the text.
pub proof fn lemma_field_next(s: Seq<char>, from: int, n: nat)
    ensures
        match field_bounds(s, from, n) {
            Some((a, b)) => field_bounds(s, from, n + 1) == (if b >= s.len() {
                None
            } else {
                Some((b + 1, field_end(s, b + 1)))
            }),
            None => field_bounds(s, from, n + 1) is None,
        },
    decreases n,
{
    let end = field_end(s, from);
    if n == 0 {
        if end < s.len() {
            assert(field_bounds(s, end + 1, 0) == Some((end + 1, field_end(s, end + 1))));
        }
        assert(field_bounds(s, from, 1) == (if end >= s.len() {
            None
        } else {
            field_bounds(s, end + 1, 0)
        }));
    } else if end < s.len() {
        lemma_field_next(s, end + 1, (n - 1) as nat);
        assert(field_bounds(s, from, n + 1) == field_bounds(s, end + 1, n));
    }
}

/// Past the last field there are no fields.
pub proof fn lemma_field_none_after(s: Seq<char>, from: int, n: nat, m: nat)
    requires
        field_bounds(s, from, n) is None,
        n <= m,
    ensures
        field_bounds(s, from, m) is None,
    decreases m - n,
{
    if n < m {
        lemma_field_next(s, from, n);
        lemma_field_none_after(s, from, n + 1, m);
    }
}

/// No field holds a space.
pub proof fn lemma_field_has_no_space(s: Seq<char>, from: int, n: nat)
    requires
        0 <= from <= s.len(),
    ensures
        match field_bounds(s, from, n) {
            Some((a, b)) => from <= a <= b <= s.len() && forall|i: int| a <= i < b ==> s[i] != ' ',
            None => true,
        },
    decreases n,
{
    lemma_field_end_bounds(s, from);
    let end = field_end(s, from);
    if n > 0 && end < s.len() {
        lemma_field_has_no_space(s, end + 1, (n - 1) as nat);
    }
}

/// The length of `line` without its terminator.
pub fn content_len(line: &Text) -> (n: usize)
    requires
        line.wf(),
    ensures
        n <= line@.len(),
        strip_terminator(line@) == line@.subrange(0, n as int),
{
    let mut n = line.len();
    if n > 0 && line.char_at(n - 1) == '\n' {
        n = n - 1;
    }
    if n > 0 && line.char_at(n - 1) == '\r' {
        n = n - 1;
    }
    proof {
        let s = line@;
        let a = if s.len() > 0 && s.last() == '\n' {
            s.drop_last()
        } else {
            s
        };
        assert(a =~= s.subrange(0, a.len() as int));
        assert(strip_terminator(s) =~= s.subrange(0, n as int));
    }
    n
}

/// The first fields of what `line` holds before position `end`, at most
/// `limit` of them, each by the positions where it starts and stops.
pub fn find_fields(line: &Text, end: usize, limit: usize) -> (r: Vec<(usize, usize)>)
    requires
        line.wf(),
        end <= line@.len(),
    ensures
        r@.len() <= limit,
        forall|n: int|
            0 <= n < r@.len() ==> (#[trigger] r@[n]).0 <= r@[n].1 <= end,
        forall|n: nat|
            n < limit ==> #[trigger] field_bounds(line@.subrange(0, end as int), 0, n) == (if n
                < r@.len() {
                Some((r@[n as int].0 as int, r@[n as int].1 as int))
            } else {
                None
            }),
{
    let ghost s = line@.subrange(0, end as int);
    let mut out: Vec<(usize, usize)> = Vec::new();
    let mut start: usize = 0;
    let mut more = true;
    while more && out.len() < limit
        invariant
            line.wf(),
            end <= line@.len(),
            s == line@.subrange(0, end as int),
            out@.len() <= limit,
            start <= end,
            forall|n: int| 0 <= n < out@.len() ==> (#[trigger] out@[n]).0 <= out@[n].1 <= end,
            forall|n: nat|
                n < out@.len() ==> #[trigger] field_bounds(s, 0, n) == Some(
                    (out@[n as int].0 as int, out@[n as int].1 as int),
                ),
            more ==> field_bounds(s, 0, out@.len() as nat) == Some(
                (start as int, field_end(s, start as int)),
            ),
            !more ==> field_bounds(s, 0, out@.len() as nat) is None,
        decreases (if more { 1int } else { 0int }) + limit - out@.len(),
    {
        let mut stop: usize = start;
        while stop < end && line.char_at(stop) != ' '
            invariant
                line.wf(),
                end <= line@.len(),
                s == line@.subrange(0, end as int),
                start <= stop <= end,
                field_end(s, stop as int) == field_end(s, start as int),
            decreases end - stop,
        {
            stop = stop + 1;
        }
        proof {
            lemma_field_next(s, 0, out@.len() as nat);
        }
        out.push((start, stop));
        if stop < end {
            start = stop + 1;
        } else {
            more = false;
        }
    }
    proof {
        assert forall|n: nat| n < limit implies #[trigger] field_bounds(s, 0, n) == (if n
            < out@.len() {
            Some((out@[n as int].0 as int, out@[n as int].1 as int))
        } else {
            None
        }) by {
            if n >= out@.len() {
                lemma_field_none_after(s, 0, out@.len() as nat, n);
            }
        }
    }
    out
}

/// Whether `s` holds no space.
pub open spec fn no_space(s: Seq<char>) -> bool {
    forall|i: int| 0 <= i < s.len() ==> s[i] != ' '
}

/// The tokens in a row, with one space between each two of them.
pub open spec fn joined(tokens: Seq<Seq<char>>) -> Seq<char>
    decreases tokens.len(),
{
    if tokens.len() == 0 {
        Seq::empty()
    } else if tokens.len() == 1 {
        tokens[0]
    } else {
        tokens[0] + seq![' '] + joined(tokens.drop_first())
    }
}

/// A token without a space, followed by nothing or by a space, ends where
/// what follows it starts.
pub proof fn lemma_field_end_of_token(t: Seq<char>, rest: Seq<char>, i: int)
    requires
        no_space(t),
        0 <= i <= t.len(),
        rest.len() > 0 ==> rest[0] == ' ',
    ensures
        field_end(t + rest, i) == t.len(),
    decreases t.len() - i,
{
    if i < t.len() {
        assert((t + rest)[i] == t[i]);
        lemma_field_end_of_token(t, rest, i + 1);
    } else if rest.len() > 0 {
        assert((t + rest)[i] == rest[0]);
    }
}

/// Text put in front moves the end of a field by its length.
pub proof fn lemma_field_end_shift(a: Seq<char>, b: Seq<char>, i: int)
    requires
        0 <= i <= b.len(),
    ensures
        field_end(a + b, a.len() + i) == a.len() + field_end(b, i),
    decreases b.len() - i,
{
    if i < b.len() {
        assert((a + b)[a.len() + i] == b[i]);
        if b[i] != ' ' {
            lemma_field_end_shift(a, b, i + 1);
        }
    }
}

/// Text put in front moves every field by its length.
pub proof fn lemma_field_bounds_shift(a: Seq<char>, b: Seq<char>, i: int, n: nat)
    requires
        0 <= i <= b.len(),
    ensures
        field_bounds(a + b, a.len() + i, n) == (match field_bounds(b, i, n) {
            Some((x, y)) => Some((a.len() + x, a.len() + y)),
            None => None,
        }),
    decreases n,
{
    lemma_field_end_shift(a, b, i);
    lemma_field_end_bounds(b, i);
    let end = field_end(b, i);
    if n > 0 && end < b.len() {
        lemma_field_bounds_shift(a, b, end + 1, (n - 1) as nat);
    }
}

/// Tokens without spaces, joined by single spaces, are the fields of what
/// they make.
pub proof fn lemma_fields_of_joined(tokens: Seq<Seq<char>>, n: nat)
    requires
        tokens.len() >= 1,
        forall|i: int| 0 <= i < tokens.len() ==> no_space(#[trigger] tokens[i]),
    ensures
        field(joined(tokens), n) == (if n < tokens.len() {
            Some(tokens[n as int])
        } else {
            None
        }),
    decreases tokens.len(),
{
    let s = joined(tokens);
    let first = tokens[0];
    if tokens.len() == 1 {
        assert(first + Seq::<char>::empty() =~= first);
        lemma_field_end_of_token(first, Seq::empty(), 0);
        assert(s.subrange(0, first.len() as int) =~= first);
    } else {
        let rest = tokens.drop_first();
        let tail = joined(rest);
        let a = first + seq![' '];
        assert(s =~= first + (seq![' '] + tail));
        assert(s =~= a + tail);
        lemma_field_end_of_token(first, seq![' '] + tail, 0);
        if n == 0 {
            assert(s.subrange(0, first.len() as int) =~= first);
        } else {
            let m = (n - 1) as nat;
            assert forall|i: int| 0 <= i < rest.len() implies no_space(#[trigger] rest[i]) by {
                assert(rest[i] == tokens[i + 1]);
            }
            lemma_fields_of_joined(rest, m);
            lemma_field_bounds_shift(a, tail, 0, m);
            lemma_field_has_no_space(tail, 0, m);
            assert(field_bounds(s, 0, n) == field_bounds(s, a.len() as int, m));
            match field_bounds(tail, 0, m) {
                Some((x, y)) => {
                    assert(s.subrange(a.len() + x, a.len() + y) =~= tail.subrange(x, y));
                    assert(rest[m as int] == tokens[n as int]);
                },
                None => {},
            }
        }
    }
}

/// What tokens make ends as the last of them ends.
pub proof fn lemma_joined_ends_as_last(tokens: Seq<Seq<char>>)
    requires
        tokens.len() >= 1,
        tokens.last().len() > 0,
    ensures
        joined(tokens).len() > 0,
        joined(tokens).last() == tokens.last().last(),
    decreases tokens.len(),
{
    if tokens.len() > 1 {
        let rest = tokens.drop_first();
        assert(rest.last() == tokens.last());
        lemma_joined_ends_as_last(rest);
    }
}

} // verus!
