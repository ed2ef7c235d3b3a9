//! The grammar of a fence line: an indent of at most three spaces, a run of
//! three or more backticks or tildes, and an optional language tag, with
//! surrounding whitespace ignored.
use vstd::prelude::*;

verus! {

/// Characters with the Unicode `White_Space` property.
pub open spec fn is_ws(c: char) -> bool {
    ('\u{9}' <= c && c <= '\u{d}') || c == ' ' || c == '\u{85}' || c == '\u{a0}'
        || c == '\u{1680}' || ('\u{2000}' <= c && c <= '\u{200a}') || c == '\u{2028}'
        || c == '\u{2029}' || c == '\u{202f}' || c == '\u{205f}' || c == '\u{3000}'
}

/// Number of consecutive copies of `c` in `s` starting at index `i`.
pub open spec fn run_from(s: Seq<char>, i: int, c: char) -> nat
    decreases s.len() - i,
{
    if 0 <= i < s.len() && s[i] == c {
        1 + run_from(s, i + 1, c)
    } else {
        0
    }
}

/// `s` without its leading whitespace.
pub open spec fn trim_start(s: Seq<char>) -> Seq<char>
    decreases s.len(),
{
    if s.len() > 0 && is_ws(s[0]) {
        trim_start(s.drop_first())
    } else {
        s
    }
}

/// `s` without its trailing whitespace.
pub open spec fn trim_end(s: Seq<char>) -> Seq<char>
    decreases s.len(),
{
    if s.len() > 0 && is_ws(s.last()) {
        trim_end(s.drop_last())
    } else {
        s
    }
}

/// Length of the fence (indent and fence characters) that opens a block on
/// `line`, or 0 when `line` opens no block.
pub open spec fn fence_len(line: Seq<char>) -> nat {
    let n = run_from(line, 0, ' ');
    if n <= 3 && n < line.len() && (line[n as int] == '`' || line[n as int] == '~')
        && run_from(line, n as int, line[n as int]) >= 3 {
        n + run_from(line, n as int, line[n as int])
    } else {
        0
    }
}

/// The language tag that follows the fence on `line`, trimmed.
pub open spec fn fence_tag(line: Seq<char>) -> Seq<char> {
    trim_end(trim_start(line.subrange(fence_len(line) as int, line.len() as int)))
}

pub open spec fn target_tag() -> Seq<char> {
    seq!['s', 'v', 'g', 'b', 'o', 'b']
}

/// A tag selects capture when it is `svgbob`, or `svgbob` followed by a comma
/// and any modifiers.
pub open spec fn is_target(tag: Seq<char>) -> bool {
    tag == target_tag() || (tag.len() > 6 && tag.subrange(0, 7) == target_tag().push(','))
}

/// `line` with the indent of `fence` removed: leading characters are dropped
/// while they equal the fence's character at the same position and that
/// character is a space or a tab.
pub open spec fn strip_indent(line: Seq<char>, fence: Seq<char>) -> Seq<char>
    decreases line.len(),
{
    if line.len() > 0 && fence.len() > 0 && line[0] == fence[0] && (fence[0] == ' '
        || fence[0] == '\t') {
        strip_indent(line.drop_first(), fence.drop_first())
    } else {
        line
    }
}

pub fn is_ws_char(c: char) -> (r: bool)
    ensures
        r == is_ws(c),
{
    ('\u{9}' <= c && c <= '\u{d}') || c == ' ' || c == '\u{85}' || c == '\u{a0}' || c
        == '\u{1680}' || ('\u{2000}' <= c && c <= '\u{200a}') || c == '\u{2028}' || c
        == '\u{2029}' || c == '\u{202f}' || c == '\u{205f}' || c == '\u{3000}'
}

/// Counts the copies of `c` in `s` from index `i` on.
fn count_run(s: &Vec<char>, i: usize, c: char) -> (r: usize)
    requires
        i <= s@.len(),
    ensures
        r == run_from(s@, i as int, c),
        i + r <= s@.len(),
{
    let mut j: usize = i;
    while j < s.len() && s[j] == c
        invariant
            i <= j <= s@.len(),
            run_from(s@, i as int, c) == (j - i) + run_from(s@, j as int, c),
        decreases s@.len() - j,
    {
        j = j + 1;
    }
    j - i
}

/// Returns the fence length of `line` (0 when it opens no block) and its
/// trimmed language tag.
pub fn match_fence(line: &Vec<char>) -> (r: (usize, Vec<char>))
    ensures
        r.0 == fence_len(line@),
        r.0 > 0 ==> r.1@ == fence_tag(line@),
        r.0 <= line@.len(),
{
    let n = count_run(line, 0, ' ');
    if n > 3 || n >= line.len() || !(line[n] == '`' || line[n] == '~') {
        return (0, Vec::new());
    }
    let m = count_run(line, n, line[n]);
    if m < 3 {
        return (0, Vec::new());
    }
    let len = n + m;
    let ghost rest = line@.subrange(len as int, line@.len() as int);
    let mut a: usize = len;
    while a < line.len() && is_ws_char(line[a])
        invariant
            len <= a <= line@.len(),
            trim_start(rest) == trim_start(line@.subrange(a as int, line@.len() as int)),
        decreases line@.len() - a,
    {
        assert(line@.subrange(a as int, line@.len() as int).drop_first() =~= line@.subrange(
            a + 1,
            line@.len() as int,
        ));
        a = a + 1;
    }
    let mut b: usize = line.len();
    assert(trim_start(rest) == line@.subrange(a as int, b as int));
    while b > a && is_ws_char(line[b - 1])
        invariant
            len <= a <= b <= line@.len(),
            trim_end(trim_start(rest)) == trim_end(line@.subrange(a as int, b as int)),
        decreases b,
    {
        assert(line@.subrange(a as int, b as int).drop_last() =~= line@.subrange(
            a as int,
            b - 1,
        ));
        b = b - 1;
    }
    let mut tag: Vec<char> = Vec::new();
    crate::chars::push_range(&mut tag, line, a, b);
    assert(tag@ =~= line@.subrange(a as int, b as int));
    (len, tag)
}

/// Whether `tag` selects capture.
pub fn is_target_tag(tag: &Vec<char>) -> (r: bool)
    ensures
        r == is_target(tag@),
{
    if tag.len() < 6 || tag[0] != 's' || tag[1] != 'v' || tag[2] != 'g' || tag[3] != 'b'
        || tag[4] != 'o' || tag[5] != 'b' {
        proof {
            let t = target_tag();
            assert(t.len() == 6);
            assert(t.push(',').len() == 7);
            if tag@.len() >= 6 {
                let j: int = choose|j: int| 0 <= j < 6 && tag@[j] != t[j];
                assert(tag@[j] != t[j]);
                assert(tag@.len() > 6 ==> tag@.subrange(0, 7)[j] != t.push(',')[j]);
            }
        }
        return false;
    }
    assert(tag@.subrange(0, 6) =~= target_tag());
    if tag.len() == 6 {
        assert(tag@ =~= target_tag());
        true
    } else if tag[6] == ',' {
        assert(tag@.subrange(0, 7) =~= target_tag().push(','));
        true
    } else {
        assert(tag@.subrange(0, 7)[6] != target_tag().push(',')[6]);
        assert(tag@ != target_tag());
        false
    }
}

/// Number of leading characters of `line` that `strip_indent` removes
/// against `fence`.
pub fn indent_len(line: &Vec<char>, fence: &Vec<char>) -> (r: usize)
    ensures
        r <= line@.len(),
        strip_indent(line@, fence@) == line@.subrange(r as int, line@.len() as int),
{
    let mut k: usize = 0;
    assert(line@.subrange(0, line@.len() as int) =~= line@);
    assert(fence@.subrange(0, fence@.len() as int) =~= fence@);
    while k < line.len() && k < fence.len() && line[k] == fence[k] && (fence[k] == ' '
        || fence[k] == '\t')
        invariant
            k <= line@.len(),
            k <= fence@.len(),
            strip_indent(line@, fence@) == strip_indent(
                line@.subrange(k as int, line@.len() as int),
                fence@.subrange(k as int, fence@.len() as int),
            ),
        decreases line@.len() - k,
    {
        assert(line@.subrange(k as int, line@.len() as int).drop_first() =~= line@.subrange(
            k + 1,
            line@.len() as int,
        ));
        assert(fence@.subrange(k as int, fence@.len() as int).drop_first() =~= fence@.subrange(
            k + 1,
            fence@.len() as int,
        ));
        k = k + 1;
    }
    let ghost l = line@.subrange(k as int, line@.len() as int);
    let ghost f = fence@.subrange(k as int, fence@.len() as int);
    assert(!(l.len() > 0 && f.len() > 0 && l[0] == f[0] && (f[0] == ' ' || f[0] == '\t')));
    k
}

} // verus!
