//! What holds of every text.

use crate::text::{
    begins, clip, digits, fields, indented, occurs, padded, run, slice_views,
    text_lines, trimmed, views, white_space,
};
use vstd::prelude::*;

verus! {

/// A clip of a text is its characters from `a` up to `b`, as many as there are, in their order.
pub proof fn a_clip_is_a_piece(s: Seq<char>, a: int, b: int)
    requires
        0 <= a,
    ensures
        a <= b <= s.len() ==> clip(s, a, b).len() == b - a,
        a <= s.len() <= b ==> clip(s, a, b).len() == s.len() - a,
        a >= b || a >= s.len() ==> clip(s, a, b).len() == 0,
        forall|i: int| 0 <= i < clip(s, a, b).len() ==> #[trigger] clip(s, a, b)[i] == s[a + i],
{
}

/// Cutting a text in two and joining the halves gives the text.
pub proof fn two_clips_are_the_text(s: Seq<char>, at: int)
    requires
        0 <= at,
    ensures
        clip(s, 0, at) + clip(s, at, s.len() as int) == s,
{
    assert(clip(s, 0, at) + clip(s, at, s.len() as int) =~= s);
}

/// Trimming takes white space off both ends, all of it and nothing else.
pub proof fn trimming_takes_all_white_space_off(s: Seq<char>)
    ensures
        exists|a: int, b: int|
            {
                &&& 0 <= a <= b <= s.len()
                &&& trimmed(s) == #[trigger] s.subrange(a, b)
                &&& forall|i: int| 0 <= i < a ==> white_space(#[trigger] s[i])
                &&& forall|i: int| b <= i < s.len() ==> white_space(#[trigger] s[i])
                &&& a < b ==> !white_space(s[a]) && !white_space(s[b - 1])
            },
    decreases s.len(),
{
    if s.len() > 0 && white_space(s[0]) {
        let t = s.drop_first();
        trimming_takes_all_white_space_off(t);
        let (a, b) = choose|a: int, b: int|
            {
                &&& 0 <= a <= b <= t.len()
                &&& trimmed(t) == #[trigger] t.subrange(a, b)
                &&& forall|i: int| 0 <= i < a ==> white_space(#[trigger] t[i])
                &&& forall|i: int| b <= i < t.len() ==> white_space(#[trigger] t[i])
                &&& a < b ==> !white_space(t[a]) && !white_space(t[b - 1])
            };
        assert(t.subrange(a, b) =~= s.subrange(a + 1, b + 1));
        assert forall|i: int| 0 <= i < a + 1 implies white_space(#[trigger] s[i]) by {
            if i > 0 {
                assert(t[i - 1] == s[i]);
            }
        }
        assert forall|i: int| b + 1 <= i < s.len() implies white_space(#[trigger] s[i]) by {
            assert(t[i - 1] == s[i]);
        }
    } else if s.len() > 0 && white_space(s.last()) {
        let t = s.drop_last();
        trimming_takes_all_white_space_off(t);
        let (a, b) = choose|a: int, b: int|
            {
                &&& 0 <= a <= b <= t.len()
                &&& trimmed(t) == #[trigger] t.subrange(a, b)
                &&& forall|i: int| 0 <= i < a ==> white_space(#[trigger] t[i])
                &&& forall|i: int| b <= i < t.len() ==> white_space(#[trigger] t[i])
                &&& a < b ==> !white_space(t[a]) && !white_space(t[b - 1])
            };
        assert(t.subrange(a, b) =~= s.subrange(a, b));
        assert forall|i: int| 0 <= i < a implies white_space(#[trigger] s[i]) by {
            assert(t[i] == s[i]);
        }
        assert forall|i: int| b <= i < s.len() implies white_space(#[trigger] s[i]) by {
            if i < t.len() {
                assert(t[i] == s[i]);
            }
        }
    } else {
        assert(s.subrange(0, s.len() as int) =~= s);
    }
}

/// Nothing is left of a text by trimming exactly where it is white space and nothing else.
pub proof fn only_blank_texts_trim_to_nothing(s: Seq<char>)
    ensures
        trimmed(s).len() == 0 <==> forall|i: int| 0 <= i < s.len() ==> white_space(#[trigger] s[i]),
{
    trimming_takes_all_white_space_off(s);
}

/// White space put before or behind a text is trimmed off again.
pub proof fn trimming_forgets_white_space_around(a: Seq<char>, s: Seq<char>, b: Seq<char>)
    requires
        forall|i: int| 0 <= i < a.len() ==> white_space(#[trigger] a[i]),
        forall|i: int| 0 <= i < b.len() ==> white_space(#[trigger] b[i]),
    ensures
        trimmed(a + s + b) == trimmed(s),
    decreases a.len() + b.len(),
{
    let all = a + s + b;
    if a.len() > 0 {
        assert(white_space(a[0]));
        assert(all[0] == a[0]);
        assert(all.drop_first() =~= a.drop_first() + s + b);
        assert forall|i: int| 0 <= i < a.drop_first().len() implies white_space(
            #[trigger] a.drop_first()[i],
        ) by {
            assert(white_space(a[i + 1]));
        }
        trimming_forgets_white_space_around(a.drop_first(), s, b);
    } else if b.len() > 0 {
        assert(white_space(b[b.len() - 1]));
        assert(all.last() == b.last());
        assert(all.drop_last() =~= a + s + b.drop_last());
        assert forall|i: int| 0 <= i < b.drop_last().len() implies white_space(
            #[trigger] b.drop_last()[i],
        ) by {
            assert(white_space(b[i]));
        }
        trimming_forgets_white_space_around(a, s, b.drop_last());
        lemma_trim_from_behind(all);
    } else {
        assert(all =~= s);
    }
}

/// White space at the end can be trimmed off first.
proof fn lemma_trim_from_behind(s: Seq<char>)
    requires
        s.len() > 0,
        white_space(s.last()),
    ensures
        trimmed(s) == trimmed(s.drop_last()),
    decreases s.len(),
{
    if white_space(s[0]) {
        let t = s.drop_first();
        if t.len() > 0 {
            assert(t.last() == s.last());
            lemma_trim_from_behind(t);
            assert(t.drop_last() =~= s.drop_last().drop_first());
            assert(s.drop_last()[0] == s[0]);
        } else {
            assert(t =~= s.drop_last());
        }
    }
}

/// A text occurs in every text that is made around it, and in no other.
pub proof fn what_occurs_stands_in_one_piece(
    part: Seq<char>,
    a: Seq<char>,
    b: Seq<char>,
    s: Seq<char>,
)
    ensures
        occurs(part, a + part + b),
        occurs(part, s) ==> exists|x: Seq<char>, y: Seq<char>| s == #[trigger] (x + part + y),
{
    let all = a + part + b;
    let at = a.len() as int;
    assert(all.subrange(at, at + part.len()) =~= part);
    if occurs(part, s) {
        let i = choose|i: int|
            0 <= i <= s.len() - part.len() && #[trigger] s.subrange(i, i + part.len()) == part;
        let x = s.take(i);
        let y = s.skip(i + part.len());
        assert forall|k: int| 0 <= k < part.len() implies s[i + k] == part[k] by {
            assert(s.subrange(i, i + part.len())[k] == s[i + k]);
        }
        assert(s =~= x + part + y);
    }
}

/// A text begins with what it is made to begin with, and with nothing else.
pub proof fn what_begins_stands_at_the_start(head: Seq<char>, rest: Seq<char>, s: Seq<char>)
    ensures
        begins(head + rest, head),
        begins(s, head) ==> s == head + s.skip(head.len() as int),
{
    assert((head + rest).subrange(0, head.len() as int) =~= head);
    if begins(s, head) {
        assert forall|k: int| 0 <= k < head.len() implies s[k] == head[k] by {
            assert(s.subrange(0, head.len() as int)[k] == s[k]);
        }
        assert(s =~= head + s.skip(head.len() as int));
    }
}

/// A run is as long as it should be, and all of one character.
pub proof fn a_run_is_one_character(c: char, n: nat)
    ensures
        run(c, n).len() == n,
        forall|i: int| 0 <= i < n ==> #[trigger] run(c, n)[i] == c,
{
}

/// The number that a row of decimal digits stands for.
pub open spec fn number(s: Seq<char>) -> int
    decreases s.len(),
{
    if s.len() == 0 {
        0
    } else {
        10 * number(s.drop_last()) + (s.last() as int - '0' as int)
    }
}

/// A number is written in decimal digits that stand for it, without a zero too many.
pub proof fn digits_stand_for_the_number(n: nat)
    ensures
        number(digits(n)) == n,
        digits(n).len() > 0,
        forall|i: int| 0 <= i < digits(n).len() ==> '0' <= #[trigger] digits(n)[i] <= '9',
        n > 0 ==> digits(n)[0] != '0',
    decreases n,
{
    if n < 10 {
        let d = digits(n);
        assert(d.drop_last() =~= Seq::empty());
        assert(number(d.drop_last()) == 0);
    } else {
        digits_stand_for_the_number(n / 10);
        let d = digits(n);
        assert(d.drop_last() =~= digits(n / 10));
    }
}

/// Padding adds spaces behind a text, or before it, up to the width asked for, and takes nothing
/// away.
pub proof fn padding_only_adds_spaces(s: Seq<char>, n: nat)
    ensures
        ({
            let more = if n > s.len() {
                (n - s.len()) as nat
            } else {
                0
            };
            &&& padded(s, n) == s + Seq::new(more, |i: int| ' ')
            &&& indented(s, n) == Seq::new(more, |i: int| ' ') + s
        }),
{
    let more = if n > s.len() {
        (n - s.len()) as nat
    } else {
        0
    };
    assert(padded(s, n) =~= s + Seq::new(more, |i: int| ' '));
    assert(indented(s, n) =~= Seq::new(more, |i: int| ' ') + s);
}

/// Pieces joined by `c`.
pub open spec fn rejoined(v: Seq<Seq<char>>, c: char) -> Seq<char>
    decreases v.len(),
{
    if v.len() == 0 {
        Seq::empty()
    } else if v.len() == 1 {
        v[0]
    } else {
        rejoined(v.drop_last(), c).push(c) + v.last()
    }
}

/// The pieces of a text between one `c` and the next hold no `c`, and joined by it are the text.
pub proof fn fields_are_the_text(s: Seq<char>, c: char)
    ensures
        fields(s, c).len() > 0,
        rejoined(fields(s, c), c) == s,
        forall|i: int| 0 <= i < fields(s, c).len() ==> !(#[trigger] fields(s, c)[i]).contains(c),
    decreases s.len(),
{
    let f = fields(s, c);
    if s.len() == 0 {
        assert(f[0] =~= s);
    } else {
        let init = s.drop_last();
        let g = fields(init, c);
        fields_are_the_text(init, c);
        if s.last() == c {
            assert(f.drop_last() =~= g);
            assert(rejoined(f, c) =~= init.push(c));
            assert(init.push(c) =~= s);
            assert forall|i: int| 0 <= i < f.len() implies !(#[trigger] f[i]).contains(c) by {
                if i < g.len() {
                    assert(!g[i].contains(c));
                }
            }
        } else {
            assert(f.drop_last() =~= g.drop_last());
            assert(f.last() == g.last().push(s.last()));
            assert(rejoined(f, c) =~= rejoined(g, c).push(s.last()));
            assert(init.push(s.last()) =~= s);
            assert forall|i: int| 0 <= i < f.len() implies !(#[trigger] f[i]).contains(c) by {
                assert(!g[i].contains(c));
                if i == g.len() - 1 && f[i].contains(c) {
                    let k = choose|k: int| 0 <= k < f[i].len() && f[i][k] == c;
                    assert(k < g[i].len());
                    assert(g[i][k] == c);
                }
            }
        }
    }
}

/// A piece without `c`, a `c`, and more, is the piece and then what the rest is.
proof fn lemma_first_field(a: Seq<char>, c: char, b: Seq<char>)
    requires
        !a.contains(c),
    ensures
        fields(a.push(c) + b, c) == seq![a] + fields(b, c),
    decreases b.len(),
{
    let s = a.push(c) + b;
    if b.len() == 0 {
        assert(s.drop_last() =~= a);
        lemma_no_field(a, c);
        assert(fields(s, c) =~= seq![a] + fields(b, c));
    } else {
        let init = b.drop_last();
        assert(s.drop_last() =~= a.push(c) + init);
        lemma_first_field(a, c, init);
        fields_are_the_text(init, c);
        let g = fields(init, c);
        let before = seq![a] + g;
        assert(s.last() == b.last());
        if b.last() == c {
            assert(fields(s, c) =~= seq![a] + fields(b, c));
        } else {
            assert(before.last() == g.last());
            assert(before.drop_last() =~= seq![a] + g.drop_last());
            assert(fields(s, c) =~= seq![a] + fields(b, c));
        }
    }
}

proof fn lemma_no_field(a: Seq<char>, c: char)
    requires
        !a.contains(c),
    ensures
        fields(a, c) == seq![a],
    decreases a.len(),
{
    if a.len() == 0 {
        assert(a =~= Seq::empty());
    } else {
        let init = a.drop_last();
        assert(!init.contains(c)) by {
            if init.contains(c) {
                let k = choose|k: int| 0 <= k < init.len() && init[k] == c;
                assert(a[k] == c);
            }
        }
        lemma_no_field(init, c);
        assert(a[a.len() - 1] != c);
        assert(seq![init].drop_last().push(init.push(a.last())) =~= seq![a]) by {
            assert(init.push(a.last()) =~= a);
        }
    }
}

/// The first line of a text ends at its first line feed, less a carriage return right before that;
/// the rest has the other lines. Without a line feed, the text is one line, unless it is empty.
pub proof fn lines_end_at_line_feeds(a: Seq<char>, b: Seq<char>)
    requires
        !a.contains('\n'),
    ensures
        a.len() == 0 ==> text_lines(a).len() == 0,
        a.len() > 0 ==> text_lines(a) == seq![a],
        a.len() == 0 || a.last() != '\r' ==> text_lines(a.push('\n') + b) == seq![a] + text_lines(
            b,
        ),
        a.len() > 0 && a.last() == '\r' ==> text_lines(a.push('\n') + b) == seq![a.drop_last()]
            + text_lines(b),
{
    lemma_no_field(a, '\n');
    assert(a.len() > 0 ==> text_lines(a) =~= seq![a]);
    lemma_first_field(a, '\n', b);
    fields_are_the_text(b, '\n');
    let g = fields(b, '\n');
    let f = seq![a] + g;
    assert(f.last() == g.last());
    assert(f.drop_last() =~= seq![a] + g.drop_last());
    assert(a.len() == 0 || a.last() != '\r' ==> text_lines(a.push('\n') + b) =~= seq![a]
        + text_lines(b));
    assert(a.len() > 0 && a.last() == '\r' ==> text_lines(a.push('\n') + b)
        =~= seq![a.drop_last()] + text_lines(b));
}

/// The view of a list of texts is the list of their characters.
pub proof fn views_hold_every_text(v: Seq<String>, w: Seq<&str>)
    ensures
        views(v).len() == v.len(),
        forall|i: int| 0 <= i < v.len() ==> #[trigger] views(v)[i] == v[i]@,
        slice_views(w).len() == w.len(),
        forall|i: int| 0 <= i < w.len() ==> #[trigger] slice_views(w)[i] == w[i]@,
{
}

} // verus!
