//! Byte strings: searching, trimming, and lines.

use vstd::prelude::*;

verus! {

/// The byte that ends a line.
pub const NEWLINE: u8 = 10;

/// The byte that may stand before the one that ends a line.
pub const RETURN: u8 = 13;

/// What each of `lines` holds.
pub open spec fn views(lines: Seq<Vec<u8>>) -> Seq<Seq<u8>> {
    Seq::new(lines.len(), |i: int| lines[i]@)
}

/// The index of the first item of `s` of which `p` holds, or the length of
/// `s` where it holds of none.
pub open spec fn first_where<T>(s: Seq<T>, p: spec_fn(T) -> bool) -> int
    decreases s.len(),
{
    if s.len() == 0 || p(s[0]) {
        0
    } else {
        1 + first_where(s.drop_first(), p)
    }
}

/// `first_where` is the one index before which `p` holds nowhere and at which
/// it holds or the sequence ends.
pub proof fn lemma_first_where<T>(s: Seq<T>, p: spec_fn(T) -> bool, k: int)
    requires
        0 <= k <= s.len(),
        forall|j: int| 0 <= j < k ==> !p(#[trigger] s[j]),
        k == s.len() || p(s[k]),
    ensures
        first_where(s, p) == k,
    decreases k,
{
    if k > 0 {
        let rest = s.drop_first();
        assert forall|j: int| 0 <= j < k - 1 implies !p(#[trigger] rest[j]) by {
            assert(rest[j] == s[j + 1]);
        }
        lemma_first_where(rest, p, k - 1);
    }
}

/// What `first_where` finds.
pub proof fn lemma_first_where_found<T>(s: Seq<T>, p: spec_fn(T) -> bool)
    ensures
        0 <= first_where(s, p) <= s.len(),
        forall|j: int| 0 <= j < first_where(s, p) ==> !p(#[trigger] s[j]),
        first_where(s, p) < s.len() ==> p(s[first_where(s, p)]),
    decreases s.len(),
{
    if s.len() != 0 && !p(s[0]) {
        let rest = s.drop_first();
        lemma_first_where_found(rest, p);
        assert forall|j: int| 0 <= j < first_where(s, p) implies !p(#[trigger] s[j]) by {
            if j > 0 {
                assert(s[j] == rest[j - 1]);
            }
        }
    }
}

/// The index of the first `b` in `s`, or the length of `s` where it holds
/// none.
pub open spec fn position(s: Seq<u8>, b: u8) -> int {
    first_where(s, is_byte(b))
}

/// The test for the byte `b`.
pub open spec fn is_byte(b: u8) -> spec_fn(u8) -> bool {
    |x: u8| x == b
}

/// Whether `s` begins with `prefix`.
pub open spec fn has_prefix(s: Seq<u8>, prefix: Seq<u8>) -> bool {
    s.len() >= prefix.len() && s.take(prefix.len() as int) == prefix
}

/// Whether `b` is blank: a space, a tab, or one of the bytes from line feed
/// to carriage return.
pub open spec fn is_space(b: u8) -> bool {
    b == 32 || (9 <= b <= 13)
}

/// `s` without the blanks it begins with.
pub open spec fn trim_start(s: Seq<u8>) -> Seq<u8>
    decreases s.len(),
{
    if s.len() > 0 && is_space(s[0]) {
        trim_start(s.drop_first())
    } else {
        s
    }
}

/// `s` without the blanks it ends with.
pub open spec fn trim_end(s: Seq<u8>) -> Seq<u8>
    decreases s.len(),
{
    if s.len() > 0 && is_space(s.last()) {
        trim_end(s.drop_last())
    } else {
        s
    }
}

/// `s` without the blanks at either end.
pub open spec fn trimmed(s: Seq<u8>) -> Seq<u8> {
    trim_end(trim_start(s))
}

/// `line` without the carriage return it may end with.
pub open spec fn without_return(line: Seq<u8>) -> Seq<u8> {
    if line.len() > 0 && line.last() == RETURN {
        line.drop_last()
    } else {
        line
    }
}

/// The lines of `text`. A line ends with a line feed, or with a carriage
/// return and a line feed; neither belongs to the line. What follows the last
/// line feed is a line too, unless it is empty.
pub open spec fn lines_of(text: Seq<u8>) -> Seq<Seq<u8>>
    decreases text.len(),
{
    if text.len() == 0 {
        Seq::empty()
    } else {
        let n = position(text, NEWLINE);
        if 0 <= n < text.len() {
            seq![without_return(text.take(n))] + lines_of(text.skip(n + 1))
        } else {
            seq![text]
        }
    }
}

/// The text that holds `lines` with a line feed between each two.
pub open spec fn joined(lines: Seq<Seq<u8>>) -> Seq<u8>
    decreases lines.len(),
{
    if lines.len() == 0 {
        Seq::empty()
    } else if lines.len() == 1 {
        lines[0]
    } else {
        joined(lines.drop_last()) + seq![NEWLINE] + lines.last()
    }
}

/// Whether `text` is written the plain way: a bare line feed between each
/// two lines and none after the last.
pub open spec fn is_plain(text: Seq<u8>) -> bool {
    &&& text.len() == 0 || text.last() != NEWLINE
    &&& forall|i: int| 0 < i < text.len() && #[trigger] text[i] == NEWLINE ==> text[i - 1] != RETURN
}

proof fn lemma_joined_front(first: Seq<u8>, rest: Seq<Seq<u8>>)
    requires
        rest.len() > 0,
    ensures
        joined(seq![first] + rest) == first + seq![NEWLINE] + joined(rest),
    decreases rest.len(),
{
    let all = seq![first] + rest;
    assert(all.last() == rest.last());
    if rest.len() == 1 {
        assert(all.drop_last() =~= seq![first]);
        assert(joined(all.drop_last()) == first);
        assert(joined(rest) == rest[0]);
    } else {
        assert(all.drop_last() =~= seq![first] + rest.drop_last());
        lemma_joined_front(first, rest.drop_last());
        assert(joined(all) =~= first + seq![NEWLINE] + joined(rest));
    }
}

/// The lines of a text that is written the plain way, joined again, are the
/// text, byte for byte.
pub proof fn law_plain_text_joins_back(text: Seq<u8>)
    requires
        is_plain(text),
    ensures
        joined(lines_of(text)) == text,
    decreases text.len(),
{
    if text.len() > 0 {
        lemma_first_where_found(text, is_byte(NEWLINE));
        let n = position(text, NEWLINE);
        if n < text.len() {
            let line = text.take(n);
            let rest = text.skip(n + 1);
            assert(without_return(line) == line) by {
                if line.len() > 0 {
                    assert(line.last() == text[n - 1]);
                }
            }
            assert(rest.len() > 0) by {
                if rest.len() == 0 {
                    assert(text.last() == text[n]);
                }
            }
            assert(is_plain(rest)) by {
                assert(rest.last() == text.last());
                assert forall|i: int| 0 < i < rest.len() && #[trigger] rest[i] == NEWLINE implies rest[i
                    - 1] != RETURN by {
                    assert(rest[i] == text[n + 1 + i]);
                    assert(rest[i - 1] == text[n + 1 + i - 1]);
                }
            }
            law_plain_text_joins_back(rest);
            assert(lines_of(rest).len() > 0);
            lemma_joined_front(line, lines_of(rest));
            assert(line + seq![NEWLINE] + rest =~= text);
        }
    }
}

proof fn lemma_trim_start(s: Seq<u8>, a: int)
    requires
        0 <= a <= s.len(),
        forall|j: int| 0 <= j < a ==> is_space(#[trigger] s[j]),
        a == s.len() || !is_space(s[a]),
    ensures
        trim_start(s) == s.skip(a),
    decreases a,
{
    if a > 0 {
        let rest = s.drop_first();
        assert forall|j: int| 0 <= j < a - 1 implies is_space(#[trigger] rest[j]) by {
            assert(rest[j] == s[j + 1]);
        }
        lemma_trim_start(rest, a - 1);
        assert(rest.skip(a - 1) =~= s.skip(a));
    } else {
        assert(s.skip(0) =~= s);
    }
}

proof fn lemma_trim_end(s: Seq<u8>, z: int)
    requires
        0 <= z <= s.len(),
        forall|j: int| z <= j < s.len() ==> is_space(#[trigger] s[j]),
        z == 0 || !is_space(s[z - 1]),
    ensures
        trim_end(s) == s.take(z),
    decreases s.len() - z,
{
    if z < s.len() {
        let rest = s.drop_last();
        lemma_trim_end(rest, z);
        assert(rest.take(z) =~= s.take(z));
    } else {
        assert(s.take(z) =~= s);
    }
}

/// The bytes of `s` from `from` up to `to`.
pub fn copy_range(s: &[u8], from: usize, to: usize) -> (r: Vec<u8>)
    requires
        from <= to <= s@.len(),
    ensures
        r@ == s@.subrange(from as int, to as int),
{
    let mut r: Vec<u8> = Vec::new();
    let mut i: usize = from;
    while i < to
        invariant
            from <= i <= to <= s@.len(),
            r@ == s@.subrange(from as int, i as int),
        decreases to - i,
    {
        r.push(s[i]);
        i += 1;
        assert(r@ =~= s@.subrange(from as int, i as int));
    }
    r
}

/// Adds the bytes of `s` to the end of `out`.
pub fn append(out: &mut Vec<u8>, s: &[u8])
    ensures
        final(out)@ == old(out)@ + s@,
{
    let mut i: usize = 0;
    while i < s.len()
        invariant
            i <= s@.len(),
            out@ == old(out)@ + s@.take(i as int),
        decreases s@.len() - i,
    {
        out.push(s[i]);
        i += 1;
        assert(out@ =~= old(out)@ + s@.take(i as int));
    }
    assert(s@.take(s@.len() as int) =~= s@);
}

/// The index of the first `b` in `s` at or after `from`, or the length of `s`
/// where none follows.
pub fn find_byte(s: &[u8], from: usize, b: u8) -> (i: usize)
    requires
        from <= s@.len(),
    ensures
        from <= i <= s@.len(),
        i - from == position(s@.skip(from as int), b),
{
    let mut i: usize = from;
    while i < s.len() && s[i] != b
        invariant
            from <= i <= s@.len(),
            forall|j: int| from <= j < i ==> s@[j] != b,
        decreases s@.len() - i,
    {
        i += 1;
    }
    proof {
        let rest = s@.skip(from as int);
        let p = is_byte(b);
        assert forall|j: int| 0 <= j < i - from implies !p(#[trigger] rest[j]) by {
            assert(rest[j] == s@[from + j]);
        }
        lemma_first_where(rest, p, i - from);
    }
    i
}

/// Whether the bytes of `s` from `from` up to `to` are those of `other`.
pub fn range_equals(s: &[u8], from: usize, to: usize, other: &[u8]) -> (b: bool)
    requires
        from <= to <= s@.len(),
    ensures
        b == (s@.subrange(from as int, to as int) == other@),
{
    if to - from != other.len() {
        return false;
    }
    let mut i: usize = 0;
    while i < other.len()
        invariant
            from <= to <= s@.len(),
            to - from == other@.len(),
            i <= other@.len(),
            forall|j: int| 0 <= j < i ==> s@[from + j] == other@[j],
        decreases other@.len() - i,
    {
        if s[from + i] != other[i] {
            assert(s@.subrange(from as int, to as int)[i as int] != other@[i as int]);
            return false;
        }
        i += 1;
    }
    assert(s@.subrange(from as int, to as int) =~= other@);
    true
}

/// Whether `s` begins with `prefix`.
pub fn starts_with(s: &[u8], prefix: &[u8]) -> (b: bool)
    ensures
        b == has_prefix(s@, prefix@),
{
    if s.len() < prefix.len() {
        false
    } else {
        assert(s@.take(prefix@.len() as int) =~= s@.subrange(0, prefix@.len() as int));
        range_equals(s, 0, prefix.len(), prefix)
    }
}

/// Where `s` begins and ends once the blanks at either end are left out.
pub fn trim(s: &[u8]) -> (r: (usize, usize))
    ensures
        r.0 <= r.1 <= s@.len(),
        s@.subrange(r.0 as int, r.1 as int) == trimmed(s@),
{
    let n: usize = s.len();
    let mut a: usize = 0;
    while a < n && is_blank(s[a])
        invariant
            a <= n == s@.len(),
            forall|j: int| 0 <= j < a ==> is_space(#[trigger] s@[j]),
        decreases n - a,
    {
        a += 1;
    }
    let mut z: usize = n;
    while z > a && is_blank(s[z - 1])
        invariant
            a <= z <= n == s@.len(),
            forall|j: int| z <= j < n ==> is_space(#[trigger] s@[j]),
        decreases z,
    {
        z -= 1;
    }
    proof {
        lemma_trim_start(s@, a as int);
        let tail = s@.skip(a as int);
        assert forall|j: int| z - a <= j < tail.len() implies is_space(#[trigger] tail[j]) by {
            assert(tail[j] == s@[a + j]);
        }
        lemma_trim_end(tail, z - a);
        assert(tail.take(z - a) =~= s@.subrange(a as int, z as int));
    }
    (a, z)
}

/// Whether `b` is blank.
pub fn is_blank(b: u8) -> (r: bool)
    ensures
        r == is_space(b),
{
    b == 32 || (9 <= b && b <= 13)
}

/// The lines of `text`.
pub fn split_lines(text: &[u8]) -> (lines: Vec<Vec<u8>>)
    ensures
        views(lines@) == lines_of(text@),
{
    let n: usize = text.len();
    let mut lines: Vec<Vec<u8>> = Vec::new();
    let mut start: usize = 0;
    assert(text@.skip(0) =~= text@);
    assert(views(lines@) =~= Seq::<Seq<u8>>::empty());
    while start < n
        invariant
            start <= n == text@.len(),
            lines_of(text@) == views(lines@) + lines_of(text@.skip(start as int)),
        decreases n - start,
    {
        let ghost rest = text@.skip(start as int);
        let ghost before = views(lines@);
        let end: usize = find_byte(text, start, NEWLINE);
        if end < n {
            let stop: usize = if end > start && text[end - 1] == RETURN {
                end - 1
            } else {
                end
            };
            let line: Vec<u8> = copy_range(text, start, stop);
            proof {
                assert(rest.take(end - start) =~= text@.subrange(start as int, end as int));
                assert(line@ =~= without_return(rest.take(end - start)));
                assert(rest.skip(end - start + 1) =~= text@.skip(end + 1));
            }
            lines.push(line);
            start = end + 1;
            proof {
                assert(views(lines@) =~= before + seq![line@]);
                assert(lines_of(text@) =~= views(lines@) + lines_of(text@.skip(start as int)));
            }
        } else {
            let line: Vec<u8> = copy_range(text, start, n);
            proof {
                assert(line@ =~= rest);
                assert(lines_of(rest) =~= seq![rest]);
            }
            lines.push(line);
            start = n;
            proof {
                assert(views(lines@) =~= before + seq![line@]);
                assert(lines_of(text@.skip(n as int)) =~= Seq::<Seq<u8>>::empty());
                assert(lines_of(text@) =~= views(lines@) + lines_of(text@.skip(start as int)));
            }
        }
    }
    assert(lines_of(text@.skip(n as int)) =~= Seq::<Seq<u8>>::empty());
    assert(views(lines@) + Seq::<Seq<u8>>::empty() =~= views(lines@));
    lines
}

/// The text that holds `lines` with a line feed between each two.
pub fn join_lines(lines: &Vec<Vec<u8>>) -> (text: Vec<u8>)
    ensures
        text@ == joined(views(lines@)),
{
    let mut text: Vec<u8> = Vec::new();
    let mut i: usize = 0;
    assert(views(lines@).take(0) =~= Seq::<Seq<u8>>::empty());
    while i < lines.len()
        invariant
            i <= lines@.len(),
            text@ == joined(views(lines@).take(i as int)),
        decreases lines@.len() - i,
    {
        let ghost before = views(lines@).take(i as int);
        let ghost now = views(lines@).take(i + 1);
        proof {
            assert(now.drop_last() =~= before);
            assert(now.last() == lines@[i as int]@);
        }
        if i > 0 {
            text.push(NEWLINE);
        }
        append(&mut text, lines[i].as_slice());
        proof {
            if i == 0 {
                assert(before.len() == 0);
                assert(text@ =~= now[0]);
            } else {
                assert(text@ =~= joined(before) + seq![NEWLINE] + now.last());
            }
        }
        i += 1;
    }
    assert(views(lines@).take(lines@.len() as int) =~= views(lines@));
    text
}

} // verus!
