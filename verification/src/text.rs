//! Text measured, cut and compared in characters.

use vstd::prelude::*;
use vstd::string::{StrSliceExecFns, StringExecFns};

verus! {

/// The part of `s` from character `a` up to character `b`; both ends stop at the end of `s`.
pub open spec fn clip(s: Seq<char>, a: int, b: int) -> Seq<char> {
    let lo = if a < s.len() { a } else { s.len() as int };
    let hi = if b < s.len() { b } else { s.len() as int };
    if lo < hi {
        s.subrange(lo, hi)
    } else {
        Seq::empty()
    }
}

/// The characters with the Unicode property White_Space.
pub open spec fn white_space(c: char) -> bool {
    ||| '\u{9}' <= c <= '\u{d}'
    ||| c == ' '
    ||| c == '\u{85}'
    ||| c == '\u{a0}'
    ||| c == '\u{1680}'
    ||| '\u{2000}' <= c <= '\u{200a}'
    ||| c == '\u{2028}'
    ||| c == '\u{2029}'
    ||| c == '\u{202f}'
    ||| c == '\u{205f}'
    ||| c == '\u{3000}'
}

/// `s` without the white space at its two ends.
pub open spec fn trimmed(s: Seq<char>) -> Seq<char>
    decreases s.len(),
{
    if s.len() > 0 && white_space(s[0]) {
        trimmed(s.drop_first())
    } else if s.len() > 0 && white_space(s.last()) {
        trimmed(s.drop_last())
    } else {
        s
    }
}

/// `part` stands somewhere in `s`, in one piece.
pub open spec fn occurs(part: Seq<char>, s: Seq<char>) -> bool {
    exists|i: int|
        0 <= i <= s.len() - part.len() && #[trigger] s.subrange(i, i + part.len()) == part
}

/// `s` begins with `head`.
pub open spec fn begins(s: Seq<char>, head: Seq<char>) -> bool {
    head.len() <= s.len() && s.subrange(0, head.len() as int) == head
}

/// `n` copies of `c`.
pub open spec fn run(c: char, n: nat) -> Seq<char> {
    Seq::new(n, |i: int| c)
}

/// The decimal digit `d`.
pub open spec fn digit(d: nat) -> char {
    (48 + d) as char
}

/// `n` written in decimal.
pub open spec fn digits(n: nat) -> Seq<char>
    decreases n,
{
    if n < 10 {
        seq![digit(n)]
    } else {
        digits(n / 10).push(digit(n % 10))
    }
}

/// The lower case of `s`, as `str::to_lowercase` gives it.
pub uninterp spec fn lowercase(s: Seq<char>) -> Seq<char>;

/// `s` with spaces behind it, up to `n` characters.
pub open spec fn padded(s: Seq<char>, n: nat) -> Seq<char> {
    if s.len() < n {
        s + run(' ', (n - s.len()) as nat)
    } else {
        s
    }
}

/// `s` with spaces before it, up to `n` characters.
pub open spec fn indented(s: Seq<char>, n: nat) -> Seq<char> {
    if s.len() < n {
        run(' ', (n - s.len()) as nat) + s
    } else {
        s
    }
}

/// The pieces of `s` between one `c` and the next: one more than there are of `c`.
pub open spec fn fields(s: Seq<char>, c: char) -> Seq<Seq<char>>
    decreases s.len(),
{
    if s.len() == 0 {
        seq![Seq::empty()]
    } else {
        let before = fields(s.drop_last(), c);
        if s.last() == c {
            before.push(Seq::empty())
        } else {
            before.drop_last().push(before.last().push(s.last()))
        }
    }
}

/// `s` without a carriage return at its end.
pub open spec fn uncarried(s: Seq<char>) -> Seq<char> {
    if s.len() > 0 && s.last() == '\r' {
        s.drop_last()
    } else {
        s
    }
}

/// The lines of `s`: each ends with a line feed, or with a carriage return and a line feed, neither
/// of which is part of it. What stands behind the last line feed is a line unless it is empty.
pub open spec fn text_lines(s: Seq<char>) -> Seq<Seq<char>> {
    let parts = fields(s, '\n');
    let ended = parts.drop_last().map_values(|p: Seq<char>| uncarried(p));
    if parts.last().len() == 0 {
        ended
    } else {
        ended.push(parts.last())
    }
}

/// The views of a list of string slices.
pub open spec fn slice_views(v: Seq<&str>) -> Seq<Seq<char>> {
    Seq::new(v.len(), |i: int| v[i]@)
}

/// The views of a list of strings.
pub open spec fn views(v: Seq<String>) -> Seq<Seq<char>> {
    Seq::new(v.len(), |i: int| v[i]@)
}

/// `char::is_whitespace` holds of exactly the characters with the Unicode property White_Space,
/// those that `white_space` lists.
pub assume_specification[ char::is_whitespace ](c: char) -> (white: bool)
    ensures
        white == white_space(c),
;

/// `String::push` appends one character.
pub assume_specification[ String::push ](s: &mut String, c: char)
    ensures
        final(s)@ == old(s)@.push(c),
;

/// `str::to_lowercase` is the Unicode lower case of the text; `lowercase` is its name here. A
/// character becomes one or more characters, so the result is empty exactly where the text is.
pub assume_specification[ str::to_lowercase ](s: &str) -> (res: String)
    ensures
        res@ == lowercase(s@),
        (res@.len() == 0) == (s@.len() == 0),
;

/// The number of characters in `s`.
pub fn width(s: &str) -> (n: usize)
    ensures
        n == s@.len(),
{
    s.unicode_len()
}

/// The characters of `s`.
pub fn letters(s: &str) -> (out: Vec<char>)
    ensures
        out@ == s@,
{
    let mut out: Vec<char> = Vec::new();
    for c in it: s.chars()
        invariant
            out@ == it.seq().take(it.index()),
            it.seq() == s@,
    {
        out.push(c);
        proof {
            assert(it.seq().take(it.index() + 1) == it.seq().take(it.index()).push(c));
        }
    }
    out
}

/// The characters of `s` from `a` up to `b`, as many of them as there are.
pub fn cut(s: &str, a: usize, b: usize) -> (part: String)
    ensures
        part@ == clip(s@, a as int, b as int),
{
    let n = width(s);
    let hi: usize = if b < n { b } else { n };
    if a < hi {
        s.substring_char(a, hi).to_owned()
    } else {
        String::new()
    }
}

/// Whether two texts are equal.
pub fn same(a: &str, b: &str) -> (eq: bool)
    ensures
        eq == (a@ == b@),
{
    let x = letters(a);
    let y = letters(b);
    if x.len() != y.len() {
        return false;
    }
    let mut i: usize = 0;
    while i < x.len()
        invariant
            i <= x.len(),
            x.len() == y.len(),
            x@ == a@,
            y@ == b@,
            x@.take(i as int) == y@.take(i as int),
        decreases x.len() - i,
    {
        if x[i] != y[i] {
            assert(x@[i as int] != y@[i as int]);
            return false;
        }
        assert(x@.take(i + 1) == x@.take(i as int).push(x@[i as int]));
        assert(y@.take(i + 1) == y@.take(i as int).push(y@[i as int]));
        i += 1;
    }
    assert(x@.take(i as int) == x@);
    assert(y@.take(i as int) == y@);
    true
}

/// Whether `s` begins with `head`.
pub fn starts_with(s: &str, head: &str) -> (yes: bool)
    ensures
        yes == begins(s@, head@),
{
    let n = width(head);
    n <= width(s) && same(s.substring_char(0, n), head)
}

/// Whether `part` stands somewhere in `s`.
pub fn contains(s: &str, part: &str) -> (yes: bool)
    ensures
        yes == occurs(part@, s@),
{
    let n = width(s);
    let k = width(part);
    if k > n {
        return false;
    }
    let mut i: usize = 0;
    while i <= n - k
        invariant
            i <= n - k + 1,
            k <= n,
            n == s@.len(),
            k == part@.len(),
            forall|j: int| 0 <= j < i ==> #[trigger] s@.subrange(j, j + part@.len()) != part@,
        decreases n - k + 1 - i,
    {
        if same(s.substring_char(i, i + k), part) {
            return true;
        }
        if i == n - k {
            return false;
        }
        i += 1;
    }
    false
}

/// `s` without the white space at its two ends.
pub fn trim(s: &str) -> (inner: String)
    ensures
        inner@ == trimmed(s@),
{
    let v = letters(s);
    let mut a: usize = 0;
    let mut b: usize = v.len();
    assert(s@.subrange(0, b as int) == s@);
    while a < b && v[a].is_whitespace()
        invariant
            a <= b == v.len(),
            v@ == s@,
            trimmed(s@.subrange(a as int, b as int)) == trimmed(s@),
        ensures
            a <= b == v.len(),
            v@ == s@,
            trimmed(s@.subrange(a as int, b as int)) == trimmed(s@),
            a < b ==> !white_space(s@[a as int]),
        decreases b - a,
    {
        assert(s@.subrange(a as int, b as int).drop_first() == s@.subrange(a + 1, b as int));
        a += 1;
    }
    while a < b && v[b - 1].is_whitespace()
        invariant
            a <= b <= v.len(),
            v@ == s@,
            trimmed(s@.subrange(a as int, b as int)) == trimmed(s@),
            a < b ==> !white_space(s@[a as int]),
        ensures
            a <= b <= v.len(),
            v@ == s@,
            trimmed(s@.subrange(a as int, b as int)) == trimmed(s@),
            a < b ==> !white_space(s@[a as int]) && !white_space(s@[b - 1]),
        decreases b - a,
    {
        assert(s@.subrange(a as int, b as int).drop_last() == s@.subrange(a as int, b - 1));
        b -= 1;
    }
    s.substring_char(a, b).to_owned()
}

/// `c`, `n` times over.
pub fn repeat(c: char, n: usize) -> (out: String)
    ensures
        out@ == run(c, n as nat),
{
    let mut out = String::new();
    let mut i: usize = 0;
    while i < n
        invariant
            i <= n,
            out@ == run(c, i as nat),
        decreases n - i,
    {
        out.push(c);
        i += 1;
        assert(out@ == run(c, i as nat));
    }
    out
}

/// `n` in decimal.
pub fn decimal(n: u128) -> (out: String)
    ensures
        out@ == digits(n as nat),
    decreases n,
{
    let d: u8 = (n % 10) as u8;
    let c: char = (48u8 + d) as char;
    if n < 10 {
        let mut out = String::new();
        out.push(c);
        assert(out@ == digits(n as nat));
        out
    } else {
        let mut out = decimal(n / 10);
        out.push(c);
        out
    }
}

/// `a` and then `b`.
pub fn plus(a: &str, b: &str) -> (out: String)
    ensures
        out@ == a@ + b@,
{
    a.to_owned().concat(b)
}

/// `s` with spaces behind it, up to `n` characters.
pub fn pad_end(s: &str, n: usize) -> (out: String)
    ensures
        out@ == padded(s@, n as nat),
{
    let k = width(s);
    if k < n {
        plus(s, &repeat(' ', n - k))
    } else {
        s.to_owned()
    }
}

/// `s` with spaces before it, up to `n` characters.
pub fn pad_start(s: &str, n: usize) -> (out: String)
    ensures
        out@ == indented(s@, n as nat),
{
    let k = width(s);
    if k < n {
        plus(&repeat(' ', n - k), s)
    } else {
        s.to_owned()
    }
}

/// The pieces of `s` between one `c` and the next.
pub fn split(s: &str, c: char) -> (out: Vec<String>)
    ensures
        views(out@) == fields(s@, c),
        out.len() > 0,
{
    let v = letters(s);
    let mut done: Vec<String> = Vec::new();
    let mut last = String::new();
    let mut i: usize = 0;
    assert(views(done@).push(last@) =~= fields(s@.take(0), c));
    while i < v.len()
        invariant
            i <= v.len(),
            v@ == s@,
            views(done@).push(last@) == fields(s@.take(i as int), c),
        decreases v.len() - i,
    {
        let ghost was = fields(s@.take(i as int), c);
        let ghost before = done@;
        let ghost tail = last@;
        assert(s@.take(i + 1).drop_last() =~= s@.take(i as int));
        if v[i] == c {
            done.push(last);
            last = String::new();
            assert(views(done@) =~= was);
        } else {
            last.push(v[i]);
            assert(was.drop_last() =~= views(before));
            assert(was.last() == tail);
        }
        i += 1;
    }
    assert(s@.take(i as int) =~= s@);
    let ghost before = done@;
    let ghost tail = last@;
    done.push(last);
    assert(views(done@) =~= views(before).push(tail));
    done
}

/// The lines of `s`.
pub fn lines(s: &str) -> (out: Vec<String>)
    ensures
        views(out@) == text_lines(s@),
{
    let parts = split(s, '\n');
    let ghost all = fields(s@, '\n');
    let ghost ended = all.drop_last().map_values(|p: Seq<char>| uncarried(p));
    let last = parts.len() - 1;
    let mut out: Vec<String> = Vec::new();
    let mut i: usize = 0;
    assert(views(parts@).len() == parts.len());
    assert(views(out@) =~= ended.take(0));
    while i < last
        invariant
            i <= last,
            last == parts.len() - 1,
            all == views(parts@),
            ended == all.drop_last().map_values(|p: Seq<char>| uncarried(p)),
            views(out@) == ended.take(i as int),
        decreases last - i,
    {
        let ghost was = out@;
        let part = &parts[i];
        let n = width(part);
        let line = if n > 0 && part.as_str().get_char(n - 1) == '\r' {
            let line = cut(part, 0, n - 1);
            assert(line@ =~= part@.drop_last());
            line
        } else {
            part.clone()
        };
        let ghost text = line@;
        out.push(line);
        proof {
            assert(all.drop_last()[i as int] == part@);
            assert(text == ended[i as int]);
            assert(views(out@) =~= views(was).push(text));
            assert(ended.take(i + 1) =~= ended.take(i as int).push(text));
        }
        i += 1;
    }
    assert(ended.take(i as int) =~= ended);
    assert(all.last() == parts[last as int]@);
    if !parts[last].as_str().is_empty() {
        let ghost was = out@;
        out.push(parts[last].clone());
        assert(views(out@) =~= views(was).push(all.last()));
    }
    out
}

/// `trimmed` leaves nothing to trim.
pub proof fn lemma_trimmed_twice(s: Seq<char>)
    ensures
        trimmed(trimmed(s)) == trimmed(s),
    decreases s.len(),
{
    if s.len() > 0 && white_space(s[0]) {
        lemma_trimmed_twice(s.drop_first());
    } else if s.len() > 0 && white_space(s.last()) {
        lemma_trimmed_twice(s.drop_last());
    }
}

/// A text without a line feed is one piece between line feeds.
proof fn lemma_one_field(s: Seq<char>)
    requires
        forall|i: int| 0 <= i < s.len() ==> #[trigger] s[i] != '\n',
    ensures
        fields(s, '\n') == seq![s],
    decreases s.len(),
{
    if s.len() > 0 {
        let init = s.drop_last();
        assert forall|i: int| 0 <= i < init.len() implies #[trigger] init[i] != '\n' by {
            assert(s[i] != '\n');
        }
        lemma_one_field(init);
        assert(init.push(s.last()) =~= s);
        assert(s[s.len() - 1] != '\n');
        assert(seq![init].drop_last().push(s) =~= seq![s]);
    } else {
        assert(s =~= Seq::empty());
    }
}

/// A text without a line feed is one line, if it is not empty.
pub proof fn lemma_one_line(s: Seq<char>)
    requires
        s.len() > 0,
        forall|i: int| 0 <= i < s.len() ==> #[trigger] s[i] != '\n',
    ensures
        text_lines(s) == seq![s],
{
    lemma_one_field(s);
    assert(text_lines(s) =~= seq![s]);
}

/// The strings of a list, borrowed.
pub fn slices(v: &Vec<String>) -> (out: Vec<&str>)
    ensures
        slice_views(out@) == views(v@),
{
    let mut out: Vec<&str> = Vec::new();
    let mut i: usize = 0;
    while i < v.len()
        invariant
            i <= v.len(),
            out.len() == i,
            forall|j: int| 0 <= j < i ==> #[trigger] out[j]@ == v[j]@,
        decreases v.len() - i,
    {
        out.push(v[i].as_str());
        i += 1;
    }
    assert(slice_views(out@) =~= views(v@));
    out
}

} // verus!
