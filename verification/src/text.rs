//! Text as sequences of characters: the order in which manifest keys are
//! kept, and the parting of a text into lines and words.

use vstd::prelude::*;
use vstd::std_specs::iter::IteratorSpec;

verus! {

/// `a` comes strictly before `b` in lexicographic order of code points, the
/// order in which strings are sorted.
pub open spec fn text_lt(a: Seq<char>, b: Seq<char>) -> bool
    decreases a.len(),
{
    if b.len() == 0 {
        false
    } else if a.len() == 0 {
        true
    } else if a[0] != b[0] {
        (a[0] as u32) < (b[0] as u32)
    } else {
        text_lt(a.drop_first(), b.drop_first())
    }
}

/// No text sorts before itself.
pub proof fn lemma_text_lt_irreflexive(a: Seq<char>)
    ensures
        !text_lt(a, a),
    decreases a.len(),
{
    if a.len() > 0 {
        lemma_text_lt_irreflexive(a.drop_first());
    }
}

/// The order is transitive.
pub proof fn lemma_text_lt_transitive(a: Seq<char>, b: Seq<char>, c: Seq<char>)
    requires
        text_lt(a, b),
        text_lt(b, c),
    ensures
        text_lt(a, c),
    decreases a.len(),
{
    if a.len() > 0 && a[0] == b[0] && b[0] == c[0] {
        lemma_text_lt_transitive(a.drop_first(), b.drop_first(), c.drop_first());
    }
}

/// Of two different texts one sorts before the other.
pub proof fn lemma_text_lt_total(a: Seq<char>, b: Seq<char>)
    ensures
        text_lt(a, b) || a == b || text_lt(b, a),
    decreases a.len(),
{
    if a.len() == 0 || b.len() == 0 {
        if a.len() == 0 && b.len() == 0 {
            assert(a =~= b);
        }
    } else if a[0] == b[0] {
        lemma_text_lt_total(a.drop_first(), b.drop_first());
        if a.drop_first() == b.drop_first() {
            assert(a =~= seq![a[0]] + a.drop_first());
            assert(b =~= seq![b[0]] + b.drop_first());
        }
    } else {
        vstd::utf8::char_u32_cast(a[0], a[0] as u32);
        vstd::utf8::char_u32_cast(b[0], b[0] as u32);
    }
}

/// Whether `a` sorts strictly before `b`.
pub fn before(a: &str, b: &str) -> (r: bool)
    ensures
        r == text_lt(a@, b@),
{
    let n = a.unicode_len();
    let mut xs = a.chars();
    let mut ys = b.chars();
    let mut i: usize = 0;
    assert(a@.skip(0) == a@ && b@.skip(0) == b@);
    loop
        invariant
            i <= n == a@.len(),
            i <= b@.len(),
            xs.remaining() == a@.skip(i as int),
            ys.remaining() == b@.skip(i as int),
            text_lt(a@, b@) == text_lt(a@.skip(i as int), b@.skip(i as int)),
        decreases n - i,
    {
        let x = xs.next();
        let y = ys.next();
        match (x, y) {
            (_, None) => {
                return false;
            },
            (None, Some(_)) => {
                return true;
            },
            (Some(c), Some(d)) => {
                if c != d {
                    return (c as u32) < (d as u32);
                }
                assert(a@.skip(i as int).drop_first() == a@.skip(i + 1));
                assert(b@.skip(i as int).drop_first() == b@.skip(i + 1));
                i += 1;
            },
        }
    }
}

/// Whether `a` and `b` are the same text.
pub fn same(a: &str, b: &str) -> (r: bool)
    ensures
        r == (a@ == b@),
{
    let n = a.unicode_len();
    let mut xs = a.chars();
    let mut ys = b.chars();
    let mut i: usize = 0;
    assert(a@.skip(0) == a@ && b@.skip(0) == b@);
    loop
        invariant
            i <= n == a@.len(),
            i <= b@.len(),
            xs.remaining() == a@.skip(i as int),
            ys.remaining() == b@.skip(i as int),
            a@.take(i as int) == b@.take(i as int),
        decreases n - i,
    {
        let x = xs.next();
        let y = ys.next();
        match (x, y) {
            (None, None) => {
                assert(a@.take(i as int) == a@ && b@.take(i as int) == b@);
                return true;
            },
            (Some(c), Some(d)) => {
                if c != d {
                    assert(a@[i as int] != b@[i as int]);
                    return false;
                }
                assert(a@.skip(i as int).drop_first() == a@.skip(i + 1));
                assert(b@.skip(i as int).drop_first() == b@.skip(i + 1));
                assert(a@.take(i + 1) == a@.take(i as int).push(c));
                assert(b@.take(i + 1) == b@.take(i as int).push(d));
                i += 1;
            },
            _ => {
                return false;
            },
        }
    }
}

/// Whether `text` begins with `prefix`.
pub fn starts_with(text: &str, prefix: &str) -> (r: bool)
    ensures
        r == prefix@.is_prefix_of(text@),
{
    let n = prefix.unicode_len();
    let mut xs = prefix.chars();
    let mut ys = text.chars();
    let mut i: usize = 0;
    assert(prefix@.skip(0) == prefix@ && text@.skip(0) == text@);
    loop
        invariant
            i <= n == prefix@.len(),
            i <= text@.len(),
            xs.remaining() == prefix@.skip(i as int),
            ys.remaining() == text@.skip(i as int),
            prefix@.take(i as int) == text@.take(i as int),
        decreases n - i,
    {
        let x = xs.next();
        let y = ys.next();
        match (x, y) {
            (None, _) => {
                assert(prefix@.take(i as int) == prefix@);
                assert(text@.subrange(0, prefix@.len() as int) == text@.take(i as int));
                return true;
            },
            (Some(c), Some(d)) => {
                if c != d {
                    assert(prefix@[i as int] != text@[i as int]);
                    return false;
                }
                assert(prefix@.skip(i as int).drop_first() == prefix@.skip(i + 1));
                assert(text@.skip(i as int).drop_first() == text@.skip(i + 1));
                assert(prefix@.take(i + 1) == prefix@.take(i as int).push(c));
                assert(text@.take(i + 1) == text@.take(i as int).push(d));
                i += 1;
            },
            (Some(_), None) => {
                return false;
            },
        }
    }
}

/// The place of the first `mark` in `text`; its length where it has none.
pub open spec fn first_of(text: Seq<char>, mark: char) -> int
    decreases text.len(),
{
    if text.len() == 0 || text[0] == mark {
        0
    } else {
        1 + first_of(text.drop_first(), mark)
    }
}

/// The parts that the `mark`s of `text` part it into: what stands before the
/// first, what stands between each and the next, which may be nothing, and
/// what stands behind the last.
pub open spec fn parts(text: Seq<char>, mark: char) -> Seq<Seq<char>>
    decreases text.len(),
{
    let at = first_of(text, mark);
    if 0 <= at < text.len() {
        seq![text.take(at)] + parts(text.skip(at + 1), mark)
    } else {
        seq![text]
    }
}

/// The first `mark` of a text stands behind as many characters as come
/// before it without being one; a text without one has it at its end.
proof fn lemma_first_of(text: Seq<char>, mark: char, k: int)
    requires
        0 <= k <= text.len(),
        forall|j: int| 0 <= j < k ==> text[j] != mark,
        k < text.len() ==> text[k] == mark,
    ensures
        first_of(text, mark) == k,
    decreases k,
{
    if k > 0 {
        let rest = text.drop_first();
        assert(text[0] != mark);
        assert forall|j: int| 0 <= j < k - 1 implies rest[j] != mark by {
            assert(rest[j] == text[j + 1]);
        }
        if k < text.len() {
            assert(rest[k - 1] == text[k]);
        }
        lemma_first_of(rest, mark, k - 1);
    }
}

/// The parts that the `mark`s of `text` part it into, empty ones too.
pub fn split_at(text: &str, mark: char) -> (pieces: Vec<String>)
    ensures
        pieces.deep_view() == parts(text@, mark),
        pieces@.len() >= 1,
{
    let n = text.unicode_len();
    let mut pieces: Vec<String> = Vec::new();
    let mut chars = text.chars();
    let mut from: usize = 0;
    let mut i: usize = 0;
    assert(text@.skip(0) == text@);
    assert(pieces.deep_view() + parts(text@, mark) =~= parts(text@, mark));
    loop
        invariant
            from <= i <= n == text@.len(),
            chars.remaining() == text@.skip(i as int),
            forall|j: int| from <= j < i ==> text@[j] != mark,
            parts(text@, mark) == pieces.deep_view() + parts(text@.skip(from as int), mark),
        decreases n - i,
    {
        let ghost done = pieces.deep_view();
        let ghost rest = text@.skip(from as int);
        match chars.next() {
            None => {
                proof {
                    assert forall|j: int| 0 <= j < n - from implies rest[j] != mark by {
                        assert(rest[j] == text@[from + j]);
                    }
                    lemma_first_of(rest, mark, n - from);
                    assert(text@.subrange(from as int, n as int) == rest);
                }
                pieces.push(text.substring_char(from, n).to_owned());
                assert(pieces.deep_view() =~= done + seq![rest]);
                return pieces;
            },
            Some(c) => {
                assert(c == text@[i as int]);
                assert(text@.skip(i as int).drop_first() == text@.skip(i + 1));
                if c == mark {
                    proof {
                        assert forall|j: int| 0 <= j < i - from implies rest[j] != mark by {
                            assert(rest[j] == text@[from + j]);
                        }
                        assert(rest[i - from] == text@[i as int]);
                        lemma_first_of(rest, mark, i - from);
                        assert(text@.subrange(from as int, i as int) == rest.take(i - from));
                        assert(rest.skip(i - from + 1) == text@.skip(i + 1));
                    }
                    pieces.push(text.substring_char(from, i).to_owned());
                    assert(pieces.deep_view() =~= done + seq![rest.take(i - from)]);
                    from = i + 1;
                }
                i += 1;
            },
        }
    }
}

/// `part` without the carriage return at its end, if it ends with one.
pub open spec fn without_return(part: Seq<char>) -> Seq<char> {
    if part.len() > 0 && part.last() == '\r' {
        part.drop_last()
    } else {
        part
    }
}

/// The lines of `text`. A line ends with a line feed, or with a carriage
/// return and a line feed, neither of which belongs to the line. What stands
/// behind the last line feed is a line too, unless it is empty.
pub open spec fn lines_of(text: Seq<char>) -> Seq<Seq<char>> {
    let pieces = parts(text, '\n');
    let ended = Seq::new((pieces.len() - 1) as nat, |j: int| without_return(pieces[j]));
    if pieces.last().len() == 0 {
        ended
    } else {
        ended.push(pieces.last())
    }
}

/// The lines of `text`.
pub fn lines(text: &str) -> (lines: Vec<String>)
    ensures
        lines.deep_view() == lines_of(text@),
{
    let pieces = split_at(text, '\n');
    let ghost all = parts(text@, '\n');
    let mut lines: Vec<String> = Vec::new();
    let ended = pieces.len() - 1;
    let mut j: usize = 0;
    while j < ended
        invariant
            j <= ended == pieces@.len() - 1,
            pieces.deep_view() == all,
            lines@.len() == j,
            forall|l: int| 0 <= l < j ==> (#[trigger] lines@[l])@ == without_return(all[l]),
        decreases ended - j,
    {
        let piece = pieces[j].as_str();
        assert(piece@ == pieces.deep_view()[j as int]);
        let n = piece.unicode_len();
        if n > 0 && piece.get_char(n - 1) == '\r' {
            assert(piece@.subrange(0, n - 1) == piece@.drop_last());
            lines.push(piece.substring_char(0, n - 1).to_owned());
        } else {
            lines.push(piece.to_owned());
        }
        j += 1;
    }
    let last = pieces[j].as_str();
    assert(last@ == pieces.deep_view()[j as int]);
    if last.unicode_len() > 0 {
        lines.push(last.to_owned());
    }
    assert(lines.deep_view() =~= lines_of(text@));
    lines
}

/// Whether `c` is whitespace: one of the characters that Unicode gives the
/// property White_Space.
pub open spec fn is_space(c: char) -> bool {
    let u = c as u32;
    ||| 0x9 <= u <= 0xD
    ||| u == 0x20
    ||| u == 0x85
    ||| u == 0xA0
    ||| u == 0x1680
    ||| 0x2000 <= u <= 0x200A
    ||| u == 0x2028
    ||| u == 0x2029
    ||| u == 0x202F
    ||| u == 0x205F
    ||| u == 0x3000
}

/// Whether `c` is whitespace.
pub fn space(c: char) -> (r: bool)
    ensures
        r == is_space(c),
{
    let u = c as u32;
    (0x9 <= u && u <= 0xD) || u == 0x20 || u == 0x85 || u == 0xA0 || u == 0x1680 || (0x2000 <= u
        && u <= 0x200A) || u == 0x2028 || u == 0x2029 || u == 0x202F || u == 0x205F || u == 0x3000
}

/// The number of whitespace characters that `text` begins with.
pub open spec fn leading(text: Seq<char>) -> int
    decreases text.len(),
{
    if text.len() == 0 || !is_space(text[0]) {
        0
    } else {
        1 + leading(text.drop_first())
    }
}

/// The number of whitespace characters that `text` ends with.
pub open spec fn trailing(text: Seq<char>) -> int
    decreases text.len(),
{
    if text.len() == 0 || !is_space(text.last()) {
        0
    } else {
        1 + trailing(text.drop_last())
    }
}

/// `text` without the whitespace at its two ends.
pub open spec fn trimmed(text: Seq<char>) -> Seq<char> {
    if leading(text) >= text.len() {
        Seq::empty()
    } else {
        text.subrange(leading(text), text.len() - trailing(text))
    }
}

proof fn lemma_leading(text: Seq<char>, k: int)
    requires
        0 <= k <= text.len(),
        forall|j: int| 0 <= j < k ==> is_space(text[j]),
        k < text.len() ==> !is_space(text[k]),
    ensures
        leading(text) == k,
    decreases k,
{
    if k > 0 {
        let rest = text.drop_first();
        assert(is_space(text[0]));
        assert forall|j: int| 0 <= j < k - 1 implies is_space(rest[j]) by {
            assert(rest[j] == text[j + 1]);
        }
        if k < text.len() {
            assert(rest[k - 1] == text[k]);
        }
        lemma_leading(rest, k - 1);
    }
}

proof fn lemma_trailing(text: Seq<char>, k: int)
    requires
        0 <= k <= text.len(),
        forall|j: int| text.len() - k <= j < text.len() ==> is_space(text[j]),
        k < text.len() ==> !is_space(text[text.len() - k - 1]),
    ensures
        trailing(text) == k,
    decreases k,
{
    if k > 0 {
        let rest = text.drop_last();
        assert(is_space(text[text.len() - 1]));
        assert forall|j: int| rest.len() - (k - 1) <= j < rest.len() implies is_space(rest[j]) by {
            assert(rest[j] == text[j]);
        }
        if k < text.len() {
            assert(rest[rest.len() - (k - 1) - 1] == text[text.len() - k - 1]);
        }
        lemma_trailing(rest, k - 1);
    }
}

/// `text` without the whitespace at its two ends.
pub fn trim(text: &str) -> (inner: &str)
    ensures
        inner@ == trimmed(text@),
{
    let n = text.unicode_len();
    let mut chars = text.chars();
    let mut first: usize = 0;
    let mut end: usize = 0;
    let mut found = false;
    let mut i: usize = 0;
    assert(text@.skip(0) == text@);
    loop
        invariant
            i <= n == text@.len(),
            chars.remaining() == text@.skip(i as int),
            !found ==> forall|j: int| 0 <= j < i ==> is_space(text@[j]),
            found ==> first < end <= i,
            found ==> forall|j: int| 0 <= j < first ==> is_space(text@[j]),
            found ==> !is_space(text@[first as int]) && !is_space(text@[end - 1]),
            found ==> forall|j: int| end <= j < i ==> is_space(text@[j]),
        decreases n - i,
    {
        match chars.next() {
            None => {
                if found {
                    proof {
                        lemma_leading(text@, first as int);
                        lemma_trailing(text@, n - end);
                    }
                    return text.substring_char(first, end);
                } else {
                    proof {
                        lemma_leading(text@, n as int);
                        assert(text@.subrange(0, 0) == Seq::<char>::empty());
                    }
                    return text.substring_char(0, 0);
                }
            },
            Some(c) => {
                assert(c == text@[i as int]);
                assert(text@.skip(i as int).drop_first() == text@.skip(i + 1));
                if !space(c) {
                    if !found {
                        first = i;
                        found = true;
                    }
                    end = i + 1;
                }
                i += 1;
            },
        }
    }
}

} // verus!
