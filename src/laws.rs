//! Properties of the scanner, stated over its model and proved.
use vstd::prelude::*;
use proc_macro2::Span;
use crate::encode::svg_ref;
use crate::fence::{fence_len, fence_tag, is_target, run_from, strip_indent};
use crate::textproc::{
    drop_newline, is_capturing, line_step, line_text, output_of, rendered, scan, step_output,
    BlockModel, LineEvent,
};

verus! {

/// `s[a..b]` is a whole line of `s`: it starts at the beginning of `s` or
/// after a line feed, ends at the end of `s` or at a line feed, and holds no
/// line feed.
pub open spec fn is_line(s: Seq<char>, a: int, b: int) -> bool {
    &&& 0 <= a <= b <= s.len()
    &&& (a == 0 || s[a - 1] == '\n')
    &&& (b == s.len() || s[b] == '\n')
    &&& forall|k: int| a <= k < b ==> s[k] != '\n'
}

/// No line of `s` opens a fence.
pub open spec fn no_fence_lines(s: Seq<char>) -> bool {
    forall|a: int, b: int| #[trigger] is_line(s, a, b) ==> fence_len(s.subrange(a, b)) == 0
}

/// The state after each fragment of `chunks` in turn, from `st`, and the
/// output of each (`None` for pass-through).
pub open spec fn run<F: Fn(String) -> String>(
    st: Option<BlockModel>,
    chunks: Seq<Seq<char>>,
    span: Span,
    render: F,
) -> (Option<BlockModel>, Seq<Option<Seq<char>>>)
    decreases chunks.len(),
{
    if chunks.len() == 0 {
        (st, Seq::empty())
    } else {
        let (st1, t, rw) = step_output(st, chunks[0], span, render);
        let (st2, outs) = run(st1, chunks.drop_first(), span, render);
        (st2, seq![output_of(st, t, rw)] + outs)
    }
}

/// Scanning lines that each leave the state unchanged and are kept emits the
/// text unchanged and rewrites nothing.
proof fn lemma_scan_keeps<F: Fn(String) -> String>(
    st: Option<BlockModel>,
    s: Seq<char>,
    start: int,
    i: int,
    span: Span,
    render: F,
)
    requires
        0 <= start <= i <= s.len(),
        start == 0 || s[start - 1] == '\n',
        forall|k: int| start <= k < i ==> s[k] != '\n',
        forall|a: int, b: int| #[trigger] is_line(s, a, b) && a >= start
            ==> line_step(st, s.subrange(a, b), span) == (st, LineEvent::Keep),
    ensures
        scan(st, s, start, i, span, render) == (st, s.subrange(start, s.len() as int), false),
    decreases s.len() - i,
{
    if i >= s.len() {
        assert(is_line(s, start, s.len() as int));
    } else if s[i] == '\n' {
        assert(is_line(s, start, i));
        lemma_scan_keeps(st, s, i + 1, i + 1, span, render);
        assert(s.subrange(start, i).push('\n') + s.subrange(i + 1, s.len() as int) =~= s.subrange(
            start,
            s.len() as int,
        ));
    } else {
        lemma_scan_keeps(st, s, start, i + 1, span, render);
    }
}

/// Outside any block, a fragment none of whose lines opens a fence is passed
/// through, and no block is left open.
pub proof fn lemma_plain_fragment_passes<F: Fn(String) -> String>(s: Seq<char>, span: Span, render: F)
    requires
        no_fence_lines(s),
    ensures
        step_output(None, s, span, render) == (None::<BlockModel>, s, false),
        output_of(None, s, false) is None,
{
    lemma_scan_keeps(None, s, 0, 0, span, render);
    assert(s.subrange(0, s.len() as int) =~= s);
}

/// A sequence of fragments none of whose lines opens a fence is passed
/// through fragment by fragment, and the scanner ends outside any block, so
/// that `finalize` succeeds.
pub proof fn lemma_plain_fragments_pass<F: Fn(String) -> String>(
    chunks: Seq<Seq<char>>,
    span: Span,
    render: F,
)
    requires
        forall|k: int| 0 <= k < chunks.len() ==> no_fence_lines(#[trigger] chunks[k]),
    ensures
        run(None, chunks, span, render).0 is None,
        run(None, chunks, span, render).1.len() == chunks.len(),
        forall|k: int| 0 <= k < chunks.len() ==> (#[trigger] run(None, chunks, span, render).1[k]) is None,
    decreases chunks.len(),
{
    if chunks.len() > 0 {
        lemma_plain_fragment_passes(chunks[0], span, render);
        let rest = chunks.drop_first();
        assert forall|k: int| 0 <= k < rest.len() implies no_fence_lines(#[trigger] rest[k]) by {
            assert(rest[k] == chunks[k + 1]);
        }
        lemma_plain_fragments_pass(rest, span, render);
        let outs = run(None, chunks, span, render).1;
        assert forall|k: int| 0 <= k < chunks.len() implies (#[trigger] outs[k]) is None by {
            if k > 0 {
                assert(outs[k] == run(None, rest, span, render).1[k - 1]);
            }
        }
    }
}

/// Inside a block, a line closes it exactly when it equals the text of the
/// opening fence; any other line leaves the block open.
pub proof fn lemma_close_is_exact(b: BlockModel, line: Seq<char>, span: Span)
    ensures
        line_step(Some(b), line, span).0 is None <==> line == b.fence,
{
}

/// A fence whose tag does not select `svgbob`, followed by lines none of
/// which equals the fence, is passed through unchanged: the block stays open
/// without capture, so that `finalize` succeeds.
pub proof fn lemma_other_block_passes<F: Fn(String) -> String>(
    open: Seq<char>,
    rest: Seq<char>,
    span: Span,
    render: F,
)
    requires
        forall|k: int| 0 <= k < open.len() ==> open[k] != '\n',
        fence_len(open) > 0,
        !is_target(fence_tag(open)),
        forall|a: int, b: int| #[trigger] is_line(rest, a, b)
            ==> rest.subrange(a, b) != open.subrange(0, fence_len(open) as int),
    ensures
        ({
            let s = open + seq!['\n'] + rest;
            let st = Some(BlockModel { fence: open.subrange(0, fence_len(open) as int), captured: None, start: span });
            &&& step_output(None, s, span, render) == (st, s, false)
            &&& output_of(None, s, false) is None
            &&& !is_capturing(st)
        }),
{
    let s = open + seq!['\n'] + rest;
    let fence = open.subrange(0, fence_len(open) as int);
    let st = Some(BlockModel { fence, captured: None, start: span });
    let n = open.len() as int;
    assert(s.subrange(0, n) =~= open);
    assert forall|a: int, b: int| #[trigger] is_line(s, a, b) && a >= n + 1
        implies line_step(st, s.subrange(a, b), span) == (st, LineEvent::Keep) by {
        let (a2, b2) = (a - n - 1, b - n - 1);
        assert forall|k: int| 0 <= k < rest.len() implies rest[k] == s[k + n + 1] by {}
        assert(a2 == 0 || rest[a2 - 1] == '\n');
        assert(b2 == rest.len() || rest[b2] == '\n');
        assert forall|k: int| a2 <= k < b2 implies rest[k] != '\n' by {
            assert(s[k + n + 1] != '\n');
        }
        assert(is_line(rest, a2, b2));
        assert(s.subrange(a, b) =~= rest.subrange(a - n - 1, b - n - 1));
    }
    lemma_scan_keeps(st, s, n + 1, n + 1, span, render);
    assert(s.subrange(n + 1, s.len() as int) =~= rest);
    lemma_scan_to_line_end(None, s, 0, 0, n, span, render);
    assert(open.push('\n') + rest =~= s);
}

/// Scanning skips over characters that are not line feeds.
proof fn lemma_scan_to_line_end<F: Fn(String) -> String>(
    st: Option<BlockModel>,
    s: Seq<char>,
    start: int,
    i: int,
    e: int,
    span: Span,
    render: F,
)
    requires
        0 <= start <= i <= e <= s.len(),
        forall|k: int| i <= k < e ==> s[k] != '\n',
    ensures
        scan(st, s, start, i, span, render) == scan(st, s, start, e, span, render),
    decreases e - i,
{
    if i < e {
        lemma_scan_to_line_end(st, s, start, i + 1, e, span, render);
    }
}

} // verus!

verus! {

/// Whether `l` holds no line feed.
pub open spec fn no_lf(l: Seq<char>) -> bool {
    forall|k: int| 0 <= k < l.len() ==> l[k] != '\n'
}

/// The lines `ls` joined by line feeds.
pub open spec fn join(ls: Seq<Seq<char>>) -> Seq<char>
    decreases ls.len(),
{
    if ls.len() == 0 {
        Seq::empty()
    } else if ls.len() == 1 {
        ls[0]
    } else {
        ls[0] + seq!['\n'] + join(ls.drop_first())
    }
}

/// The groups `gs` laid end to end.
pub open spec fn flatten(gs: Seq<Seq<Seq<char>>>) -> Seq<Seq<char>>
    decreases gs.len(),
{
    if gs.len() == 0 {
        Seq::empty()
    } else {
        gs[0] + flatten(gs.drop_first())
    }
}

/// Scanning line by line: the lines `ls`, each but the last followed by a
/// line feed.
pub open spec fn scan_lines<F: Fn(String) -> String>(
    st: Option<BlockModel>,
    ls: Seq<Seq<char>>,
    span: Span,
    render: F,
) -> (Option<BlockModel>, Seq<char>, bool)
    decreases ls.len(),
{
    if ls.len() == 0 {
        (st, Seq::empty(), false)
    } else {
        let (st1, ev) = line_step(st, ls[0], span);
        if ls.len() == 1 {
            (st1, line_text(ev, ls[0], false, render), !(ev is Keep))
        } else {
            let (st2, t2, rw2) = scan_lines(st1, ls.drop_first(), span, render);
            (st2, line_text(ev, ls[0], true, render) + t2, !(ev is Keep) || rw2)
        }
    }
}

/// The captured content for the lines `ls` inside a block opened by `fence`.
pub open spec fn strips(ls: Seq<Seq<char>>, fence: Seq<char>) -> Seq<char>
    decreases ls.len(),
{
    if ls.len() == 0 {
        Seq::empty()
    } else {
        strip_indent(ls[0], fence) + seq!['\n'] + strips(ls.drop_first(), fence)
    }
}

/// An `svgbob` block being captured.
pub open spec fn capturing(fence: Seq<char>, c: Seq<char>, start: Span) -> Option<BlockModel> {
    Some(BlockModel { fence, captured: Some(c), start })
}

/// The fence text that `open` opens a block with.
pub open spec fn fence_of(open: Seq<char>) -> Seq<char> {
    open.subrange(0, fence_len(open) as int)
}

/// `open` opens an `svgbob` block, and no line of `content` closes it.
pub open spec fn is_target_block(open: Seq<char>, content: Seq<Seq<char>>) -> bool {
    &&& no_lf(open)
    &&& fence_len(open) > 0
    &&& is_target(fence_tag(open))
    &&& forall|j: int| 0 <= j < content.len() ==> no_lf(#[trigger] content[j]) && content[j] != fence_of(open)
}

/// The lines of the block: the opening fence, the content, the closing fence.
pub open spec fn block_lines(open: Seq<char>, content: Seq<Seq<char>>) -> Seq<Seq<char>> {
    seq![open] + content + seq![fence_of(open)]
}

/// `groups` cuts `lines` into non-empty runs of consecutive lines.
pub open spec fn is_chunking(groups: Seq<Seq<Seq<char>>>, lines: Seq<Seq<char>>) -> bool {
    &&& forall|k: int| 0 <= k < groups.len() ==> (#[trigger] groups[k]).len() > 0
    &&& flatten(groups) == lines
}

/// The fragments made of `groups`, each group's lines joined by line feeds.
pub open spec fn fragments(groups: Seq<Seq<Seq<char>>>) -> Seq<Seq<char>> {
    groups.map_values(|g: Seq<Seq<char>>| join(g))
}

proof fn lemma_scan_shift<F: Fn(String) -> String>(
    st: Option<BlockModel>,
    p: Seq<char>,
    q: Seq<char>,
    x: int,
    y: int,
    span: Span,
    render: F,
)
    requires
        0 <= x <= y <= q.len(),
    ensures
        scan(st, p + q, p.len() + x, p.len() + y, span, render) == scan(st, q, x, y, span, render),
    decreases q.len() - y,
{
    let s = p + q;
    let n = p.len() as int;
    if y >= q.len() {
        assert(s.subrange(n + x, s.len() as int) =~= q.subrange(x, q.len() as int));
    } else if q[y] == '\n' {
        assert(s[n + y] == '\n');
        assert(s.subrange(n + x, n + y) =~= q.subrange(x, y));
        let st1 = line_step(st, q.subrange(x, y), span).0;
        lemma_scan_shift(st1, p, q, y + 1, y + 1, span, render);
    } else {
        assert(s[n + y] == q[y]);
        lemma_scan_shift(st, p, q, x, y + 1, span, render);
    }
}

proof fn lemma_scan_join<F: Fn(String) -> String>(
    st: Option<BlockModel>,
    ls: Seq<Seq<char>>,
    span: Span,
    render: F,
)
    requires
        ls.len() >= 1,
        forall|j: int| 0 <= j < ls.len() ==> no_lf(#[trigger] ls[j]),
    ensures
        scan(st, join(ls), 0, 0, span, render) == scan_lines(st, ls, span, render),
    decreases ls.len(),
{
    let l0 = ls[0];
    assert(no_lf(ls[0]));
    if ls.len() == 1 {
        lemma_scan_to_line_end(st, l0, 0, 0, l0.len() as int, span, render);
        assert(l0.subrange(0, l0.len() as int) =~= l0);
    } else {
        let rest = ls.drop_first();
        assert forall|j: int| 0 <= j < rest.len() implies no_lf(#[trigger] rest[j]) by {
            assert(rest[j] == ls[j + 1]);
        }
        let s = join(ls);
        let p = l0 + seq!['\n'];
        assert(s =~= p + join(rest));
        let n = l0.len() as int;
        assert forall|k: int| 0 <= k < n implies s[k] != '\n' by {
            assert(s[k] == l0[k]);
        }
        lemma_scan_to_line_end(st, s, 0, 0, n, span, render);
        assert(s[n] == '\n');
        assert(s.subrange(0, n) =~= l0);
        let st1 = line_step(st, l0, span).0;
        lemma_scan_shift(st1, p, join(rest), 0, 0, span, render);
        lemma_scan_join(st1, rest, span, render);
    }
}

proof fn lemma_strips_append(a: Seq<Seq<char>>, b: Seq<Seq<char>>, f: Seq<char>)
    ensures
        strips(a + b, f) == strips(a, f) + strips(b, f),
    decreases a.len(),
{
    if a.len() == 0 {
        assert(a + b =~= b);
        assert(strips(a, f) + strips(b, f) =~= strips(b, f));
    } else {
        lemma_strips_append(a.drop_first(), b, f);
        assert((a + b).drop_first() =~= a.drop_first() + b);
        assert((a + b)[0] == a[0]);
        assert(strips(a + b, f) =~= strips(a, f) + strips(b, f));
    }
}

proof fn lemma_run_from_bound(s: Seq<char>, i: int, c: char)
    requires
        0 <= i <= s.len(),
    ensures
        i + run_from(s, i, c) <= s.len(),
    decreases s.len() - i,
{
    if i < s.len() {
        lemma_run_from_bound(s, i + 1, c);
    }
}

proof fn lemma_fence_len_bound(line: Seq<char>)
    ensures
        fence_len(line) <= line.len(),
{
    lemma_run_from_bound(line, 0, ' ');
    let n = run_from(line, 0, ' ');
    if n < line.len() {
        lemma_run_from_bound(line, n as int, line[n as int]);
    }
}

proof fn lemma_flatten_first(gs: Seq<Seq<Seq<char>>>)
    requires
        gs.len() > 0,
    ensures
        flatten(gs) == gs[0] + flatten(gs.drop_first()),
{
}

/// Content lines of a captured block are suppressed and captured.
proof fn lemma_capture_lines<F: Fn(String) -> String>(
    f: Seq<char>,
    c: Seq<char>,
    sp: Span,
    ls: Seq<Seq<char>>,
    span: Span,
    render: F,
)
    requires
        forall|j: int| 0 <= j < ls.len() ==> #[trigger] ls[j] != f,
    ensures
        scan_lines(capturing(f, c, sp), ls, span, render) == (capturing(f, c + strips(ls, f), sp), Seq::<char>::empty(), ls.len() > 0),
    decreases ls.len(),
{
    if ls.len() == 0 {
        assert(c + strips(ls, f) =~= c);
    } else {
        let c1 = c + strip_indent(ls[0], f) + seq!['\n'];
        let rest = ls.drop_first();
        assert(ls[0] != f);
        if ls.len() == 1 {
            assert(strips(rest, f) == Seq::<char>::empty());
            assert(c1 =~= c + strips(ls, f));
        } else {
            assert forall|j: int| 0 <= j < rest.len() implies #[trigger] rest[j] != f by {
                assert(rest[j] == ls[j + 1]);
            }
            lemma_capture_lines(f, c1, sp, rest, span, render);
            assert(c1 + strips(rest, f) =~= c + strips(ls, f));
            assert(Seq::<char>::empty() + Seq::<char>::empty() =~= Seq::<char>::empty());
        }
    }
}

/// Content lines followed by the closing fence give the diagram's reference.
proof fn lemma_capture_close<F: Fn(String) -> String>(
    f: Seq<char>,
    c: Seq<char>,
    sp: Span,
    ls: Seq<Seq<char>>,
    span: Span,
    render: F,
)
    requires
        forall|j: int| 0 <= j < ls.len() ==> #[trigger] ls[j] != f,
    ensures
        scan_lines(capturing(f, c, sp), ls.push(f), span, render) == (
            None::<BlockModel>,
            svg_ref(rendered(render, drop_newline(c + strips(ls, f)))),
            true,
        ),
    decreases ls.len(),
{
    let all = ls.push(f);
    if ls.len() == 0 {
        assert(c + strips(ls, f) =~= c);
    } else {
        let c1 = c + strip_indent(ls[0], f) + seq!['\n'];
        let rest = ls.drop_first();
        assert(all[0] == ls[0]);
        assert(ls[0] != f);
        assert(all.drop_first() =~= rest.push(f));
        assert forall|j: int| 0 <= j < rest.len() implies #[trigger] rest[j] != f by {
            assert(rest[j] == ls[j + 1]);
        }
        lemma_capture_close(f, c1, sp, rest, span, render);
        assert(c1 + strips(rest, f) =~= c + strips(ls, f));
        assert(Seq::<char>::empty() + svg_ref(rendered(render, drop_newline(c + strips(ls, f))))
            =~= svg_ref(rendered(render, drop_newline(c + strips(ls, f)))));
    }
}

} // verus!

verus! {

/// From a block being captured, fragments that cut the remaining content
/// lines and the closing fence output nothing, then the diagram's reference.
proof fn lemma_run_capture<F: Fn(String) -> String>(
    f: Seq<char>,
    c: Seq<char>,
    sp: Span,
    rest: Seq<Seq<char>>,
    groups: Seq<Seq<Seq<char>>>,
    span: Span,
    render: F,
)
    requires
        no_lf(f),
        forall|j: int| 0 <= j < rest.len() ==> no_lf(#[trigger] rest[j]) && rest[j] != f,
        groups.len() >= 1,
        is_chunking(groups, rest.push(f)),
    ensures
        run(capturing(f, c, sp), fragments(groups), span, render).0 is None,
        run(capturing(f, c, sp), fragments(groups), span, render).1.len() == groups.len(),
        forall|k: int| 0 <= k < groups.len() - 1
            ==> #[trigger] run(capturing(f, c, sp), fragments(groups), span, render).1[k] == Some(Seq::<char>::empty()),
        run(capturing(f, c, sp), fragments(groups), span, render).1[groups.len() - 1]
            == Some(svg_ref(rendered(render, drop_newline(c + strips(rest, f))))),
    decreases groups.len(),
{
    let st = capturing(f, c, sp);
    let g0 = groups[0];
    let tail = groups.drop_first();
    let frs = fragments(groups);
    let all = rest.push(f);
    assert(frs.len() == groups.len());
    lemma_flatten_first(groups);
    assert(frs[0] == join(g0));
    assert(frs.drop_first() =~= fragments(tail));
    assert(g0 =~= all.subrange(0, g0.len() as int));
    assert(flatten(tail) =~= all.subrange(g0.len() as int, all.len() as int));
    assert(g0.len() > 0);
    assert forall|j: int| 0 <= j < g0.len() implies no_lf(#[trigger] g0[j]) by {
        assert(g0[j] == all[j]);
        if j < rest.len() {
            assert(no_lf(rest[j]));
        }
    }
    lemma_scan_join(st, g0, span, render);
    let r0 = step_output(st, frs[0], span, render);
    let rn = run(r0.0, frs.drop_first(), span, render);
    assert(run(st, frs, span, render) == (rn.0, seq![output_of(st, r0.1, r0.2)] + rn.1));
    let outs = run(st, frs, span, render).1;
    if groups.len() == 1 {
        assert(g0 =~= all);
        lemma_capture_close(f, c, sp, rest, span, render);
        assert(frs.drop_first().len() == 0);
        assert(rn == (r0.0, Seq::<Option<Seq<char>>>::empty()));
    } else {
        lemma_flatten_first(tail);
        assert(tail[0] == groups[1]);
        assert(g0.len() <= rest.len());
        assert(g0 =~= rest.subrange(0, g0.len() as int));
        assert forall|j: int| 0 <= j < g0.len() implies #[trigger] g0[j] != f by {
            assert(g0[j] == rest[j]);
        }
        lemma_capture_lines(f, c, sp, g0, span, render);
        let c2 = c + strips(g0, f);
        let rest2 = rest.subrange(g0.len() as int, rest.len() as int);
        assert(rest =~= g0 + rest2);
        lemma_strips_append(g0, rest2, f);
        assert(flatten(tail) =~= rest2.push(f));
        assert forall|k: int| 0 <= k < tail.len() implies (#[trigger] tail[k]).len() > 0 by {
            assert(tail[k] == groups[k + 1]);
        }
        assert forall|j: int| 0 <= j < rest2.len() implies no_lf(#[trigger] rest2[j]) && rest2[j] != f by {
            assert(rest2[j] == rest[j + g0.len()]);
        }
        lemma_run_capture(f, c2, sp, rest2, tail, span, render);
        assert(c2 + strips(rest2, f) =~= c + strips(rest, f));
        let outs2 = run(capturing(f, c2, sp), fragments(tail), span, render).1;
        assert forall|k: int| 0 <= k < groups.len() - 1 implies #[trigger] outs[k] == Some(Seq::<char>::empty()) by {
            if k > 0 {
                assert(outs[k] == outs2[k - 1]);
            }
        }
        assert(outs[groups.len() - 1] == outs2[tail.len() - 1]);
    }
}

/// Fragments that cut a well-formed `svgbob` block output nothing, then the
/// diagram's reference, and leave no block open.
proof fn lemma_run_block<F: Fn(String) -> String>(
    open: Seq<char>,
    content: Seq<Seq<char>>,
    groups: Seq<Seq<Seq<char>>>,
    span: Span,
    render: F,
)
    requires
        is_target_block(open, content),
        is_chunking(groups, block_lines(open, content)),
    ensures
        groups.len() >= 1,
        run(None, fragments(groups), span, render).0 is None,
        run(None, fragments(groups), span, render).1.len() == groups.len(),
        forall|k: int| 0 <= k < groups.len() - 1
            ==> #[trigger] run(None, fragments(groups), span, render).1[k] == Some(Seq::<char>::empty()),
        run(None, fragments(groups), span, render).1[groups.len() - 1]
            == Some(svg_ref(rendered(render, drop_newline(strips(content, fence_of(open)))))),
{
    let f = fence_of(open);
    let lines = block_lines(open, content);
    let e = Seq::<char>::empty();
    if groups.len() == 0 {
        assert(lines.len() > 0);
    }
    let g0 = groups[0];
    let tail = groups.drop_first();
    let frs = fragments(groups);
    assert(frs.len() == groups.len());
    lemma_flatten_first(groups);
    assert(frs[0] == join(g0));
    assert(frs.drop_first() =~= fragments(tail));
    assert(g0 =~= lines.subrange(0, g0.len() as int));
    assert(flatten(tail) =~= lines.subrange(g0.len() as int, lines.len() as int));
    assert(g0.len() > 0);
    assert(g0[0] == open);
    assert(no_lf(open));
    assert(no_lf(f)) by {
        lemma_fence_len_bound(open);
        assert forall|k: int| 0 <= k < f.len() implies f[k] != '\n' by {
            assert(f[k] == open[k]);
        }
    }
    assert forall|j: int| 0 <= j < lines.len() implies no_lf(#[trigger] lines[j]) by {
        if 0 < j < lines.len() - 1 {
            assert(lines[j] == content[j - 1]);
            assert(no_lf(content[j - 1]));
        }
    }
    assert forall|j: int| 0 <= j < g0.len() implies no_lf(#[trigger] g0[j]) by {
        assert(g0[j] == lines[j]);
    }
    assert forall|j: int| 0 <= j < content.len() implies no_lf(#[trigger] content[j]) && content[j] != f by {
    }
    lemma_scan_join(None, g0, span, render);
    assert(line_step(None, open, span) == (capturing(f, e, span), LineEvent::Drop));
    let p = g0.drop_first();
    let r0 = step_output(None, frs[0], span, render);
    let rn = run(r0.0, frs.drop_first(), span, render);
    assert(run(None, frs, span, render) == (rn.0, seq![output_of(None, r0.1, r0.2)] + rn.1));
    let outs = run(None, frs, span, render).1;
    if groups.len() == 1 {
        assert(g0 =~= lines);
        assert(p =~= content.push(f));
        lemma_capture_close(f, e, span, content, span, render);
        assert(frs.drop_first().len() == 0);
        assert(rn == (r0.0, Seq::<Option<Seq<char>>>::empty()));
        assert(e + strips(content, f) =~= strips(content, f));
        assert(e + svg_ref(rendered(render, drop_newline(strips(content, f)))) =~= svg_ref(
            rendered(render, drop_newline(strips(content, f))),
        ));
    } else {
        lemma_flatten_first(tail);
        assert(tail[0] == groups[1]);
        assert(p.len() <= content.len());
        assert(p =~= content.subrange(0, p.len() as int));
        assert forall|j: int| 0 <= j < p.len() implies #[trigger] p[j] != f by {
            assert(p[j] == content[j]);
        }
        lemma_capture_lines(f, e, span, p, span, render);
        assert(e + strips(p, f) =~= strips(p, f));
        if p.len() == 0 {
            assert(strips(p, f) == e);
        } else {
            assert(e + e =~= e);
        }
        let rest2 = content.subrange(p.len() as int, content.len() as int);
        assert(content =~= p + rest2);
        lemma_strips_append(p, rest2, f);
        assert(flatten(tail) =~= rest2.push(f));
        assert forall|k: int| 0 <= k < tail.len() implies (#[trigger] tail[k]).len() > 0 by {
            assert(tail[k] == groups[k + 1]);
        }
        assert forall|j: int| 0 <= j < rest2.len() implies no_lf(#[trigger] rest2[j]) && rest2[j] != f by {
            assert(rest2[j] == content[j + p.len()]);
        }
        lemma_run_capture(f, strips(p, f), span, rest2, tail, span, render);
        let outs2 = run(capturing(f, strips(p, f), span), fragments(tail), span, render).1;
        assert forall|k: int| 0 <= k < groups.len() - 1 implies #[trigger] outs[k] == Some(e) by {
            if k > 0 {
                assert(outs[k] == outs2[k - 1]);
            }
        }
        assert(outs[groups.len() - 1] == outs2[tail.len() - 1]);
    }
}

/// A well-formed `svgbob` block (an opening fence, content lines, the
/// closing fence) gives the same output however it is cut into fragments
/// at line boundaries: every fragment but the last outputs nothing, the last
/// outputs what the whole block as one fragment outputs, which is the
/// reference of its diagram, and no block is left open.
pub proof fn lemma_chunking_independent<F: Fn(String) -> String>(
    open: Seq<char>,
    content: Seq<Seq<char>>,
    groups: Seq<Seq<Seq<char>>>,
    span: Span,
    render: F,
)
    requires
        is_target_block(open, content),
        is_chunking(groups, block_lines(open, content)),
    ensures
        ({
            let whole = run(None, seq![join(block_lines(open, content))], span, render);
            let parts = run(None, fragments(groups), span, render);
            &&& whole.0 is None
            &&& parts.0 is None
            &&& whole.1.len() == 1
            &&& parts.1.len() == groups.len()
            &&& forall|k: int| 0 <= k < groups.len() - 1 ==> #[trigger] parts.1[k] == Some(Seq::<char>::empty())
            &&& parts.1[groups.len() - 1] == whole.1[0]
            &&& whole.1[0] == Some(svg_ref(rendered(render, drop_newline(strips(content, fence_of(open))))))
        }),
{
    lemma_run_block(open, content, groups, span, render);
    let lines = block_lines(open, content);
    let one = seq![lines];
    lemma_flatten_first(one);
    assert(one.drop_first() =~= Seq::<Seq<Seq<char>>>::empty());
    assert(flatten(one) =~= lines);
    assert(fragments(one) =~= seq![join(lines)]);
    lemma_run_block(open, content, one, span, render);
}

} // verus!
