//! The fence scanner: a state machine fed one documentation fragment at a
//! time, which suppresses `svgbob` blocks and emits an image reference in
//! their place.
use vstd::prelude::*;
use proc_macro2::Span;
use crate::chars::{chars_of, push_range, string_of};
use crate::encode::{push_svg_ref, svg_ref};
use crate::fence::{fence_len, fence_tag, indent_len, is_target, is_target_tag, match_fence, strip_indent};

verus! {

/// A source location, carried through unchanged for error reporting.
#[verifier::external_type_specification]
#[verifier::external_body]
pub struct ExSpan(proc_macro2::Span);

/// The current state of the code block finder.
pub struct TextProcState {
    code_block: Option<CodeBlock>,
}

struct CodeBlock {
    fence: Vec<char>,
    captured: Option<CapturedCodeBlock>,
    start: Span,
}

struct CapturedCodeBlock {
    content: Vec<char>,
}

/// The output of `TextProcState::step`.
pub enum TextProcOutput {
    /// Output the input fragment without modification, preserving its
    /// positional information.
    Passthrough,
    /// Output nothing.
    Empty,
    /// Output a new documentation text. The positional association between
    /// the input fragment and `.0` is erased.
    Fragment(String),
}

/// The error reported by `TextProcState::finalize`.
pub enum TextProcError {
    /// An `svgbob` block opened at the given location was never closed.
    UnclosedCodeBlock(Span),
}

impl TextProcError {
    /// The diagnostic message of the error.
    pub fn message(&self) -> (r: String)
        ensures
            r@ == "unclosed code block"@,
    {
        string_of(&chars_of("unclosed code block"))
    }

    /// The location that the error is reported at.
    pub fn span(&self) -> (r: Span)
        ensures
            r == (match self {
                TextProcError::UnclosedCodeBlock(s) => *s,
            }),
    {
        match self {
            TextProcError::UnclosedCodeBlock(s) => *s,
        }
    }
}

/// The open block, as the scanner sees it.
pub struct BlockModel {
    /// The indent and fence characters that opened the block.
    pub fence: Seq<char>,
    /// The captured content, for an `svgbob` block.
    pub captured: Option<Seq<char>>,
    /// Where the block opened.
    pub start: Span,
}

/// What happens to one line.
pub enum LineEvent {
    /// The line is emitted as it is.
    Keep,
    /// The line is suppressed.
    Drop,
    /// The line closes an `svgbob` block with the given diagram text; the
    /// diagram's image reference is emitted in its place.
    Close(Seq<char>),
}

/// Captured content without its final line feed: the diagram text.
pub open spec fn drop_newline(c: Seq<char>) -> Seq<char> {
    if c.len() > 0 {
        c.drop_last()
    } else {
        c
    }
}

/// The state after `line` and what becomes of the line.
pub open spec fn line_step(st: Option<BlockModel>, line: Seq<char>, span: Span) -> (Option<BlockModel>, LineEvent) {
    match st {
        Some(b) => if line == b.fence {
            match b.captured {
                Some(c) => (None, LineEvent::Close(drop_newline(c))),
                None => (None, LineEvent::Keep),
            }
        } else {
            match b.captured {
                Some(c) => (
                    Some(BlockModel { fence: b.fence, captured: Some(c + strip_indent(line, b.fence) + seq!['\n']), start: b.start }),
                    LineEvent::Drop,
                ),
                None => (st, LineEvent::Keep),
            }
        },
        None => if fence_len(line) > 0 {
            let cap = is_target(fence_tag(line));
            (
                Some(BlockModel {
                    fence: line.subrange(0, fence_len(line) as int),
                    captured: if cap { Some(Seq::empty()) } else { None },
                    start: span,
                }),
                if cap { LineEvent::Drop } else { LineEvent::Keep },
            )
        } else {
            (None, LineEvent::Keep)
        },
    }
}

/// Whether `render` may return `r` for the diagram text `art`.
pub open spec fn renders_to<F: Fn(String) -> String>(render: F, art: Seq<char>, r: String) -> bool {
    exists|a: String| a@ == art && #[trigger] render.ensures((a,), r)
}

/// The SVG document that `render` gives for the diagram text `art`.
pub open spec fn rendered<F: Fn(String) -> String>(render: F, art: Seq<char>) -> Seq<char> {
    (choose|r: String| #[trigger] renders_to(render, art, r))@
}

/// `render` gives equal documents for equal diagram texts.
pub open spec fn renders_deterministically<F: Fn(String) -> String>(render: F) -> bool {
    forall|a: String, b: String, r1: String, r2: String|
        #[trigger] render.ensures((a,), r1) && #[trigger] render.ensures((b,), r2) && a@ == b@
            ==> r1@ == r2@
}

/// `render` accepts every diagram text and renders it deterministically.
pub open spec fn valid_renderer<F: Fn(String) -> String>(render: F) -> bool {
    &&& forall|a: String| #[trigger] render.requires((a,))
    &&& renders_deterministically(render)
}

/// The text emitted for one line with event `ev`; `brk` says whether the
/// line was followed by a line feed.
pub open spec fn line_text<F: Fn(String) -> String>(ev: LineEvent, line: Seq<char>, brk: bool, render: F) -> Seq<char> {
    match ev {
        LineEvent::Keep => if brk { line.push('\n') } else { line },
        LineEvent::Drop => Seq::empty(),
        LineEvent::Close(c) => svg_ref(rendered(render, c)),
    }
}

/// Scans `s` from index `i`, where the current line started at `start`:
/// the state at the end, the text emitted, and whether any line was
/// suppressed or rewritten.
pub open spec fn scan<F: Fn(String) -> String>(
    st: Option<BlockModel>,
    s: Seq<char>,
    start: int,
    i: int,
    span: Span,
    render: F,
) -> (Option<BlockModel>, Seq<char>, bool)
    decreases s.len() - i,
{
    if i >= s.len() {
        let line = s.subrange(start, s.len() as int);
        let (st1, ev) = line_step(st, line, span);
        (st1, line_text(ev, line, false, render), !(ev is Keep))
    } else if s[i] == '\n' {
        let line = s.subrange(start, i);
        let (st1, ev) = line_step(st, line, span);
        let (st2, t2, rw2) = scan(st1, s, i + 1, i + 1, span, render);
        (st2, line_text(ev, line, true, render) + t2, !(ev is Keep) || rw2)
    } else {
        scan(st, s, start, i + 1, span, render)
    }
}

/// Whether the block `st` is capturing an `svgbob` diagram.
pub open spec fn is_capturing(st: Option<BlockModel>) -> bool {
    st is Some && st->0.captured is Some
}

/// The output of one step from state `st` on fragment `s`.
pub open spec fn step_output<F: Fn(String) -> String>(st: Option<BlockModel>, s: Seq<char>, span: Span, render: F) -> (Option<BlockModel>, Seq<char>, bool) {
    scan(st, s, 0, 0, span, render)
}

impl TextProcOutput {
    /// The view of the output: `None` for pass-through, else the text.
    pub open spec fn text(self) -> Option<Seq<char>> {
        match self {
            TextProcOutput::Passthrough => None,
            TextProcOutput::Empty => Some(Seq::empty()),
            TextProcOutput::Fragment(t) => Some(t@),
        }
    }
}

/// The output variant for a step that started in state `st`, emitted `text`,
/// and suppressed or rewrote a line when `rw` holds.
pub open spec fn output_of(st: Option<BlockModel>, text: Seq<char>, rw: bool) -> Option<Seq<char>> {
    if !is_capturing(st) && !rw {
        None
    } else {
        Some(text)
    }
}

impl CodeBlock {
    spec fn model(&self) -> BlockModel {
        BlockModel {
            fence: self.fence@,
            captured: match self.captured {
                Some(c) => Some(c.content@),
                None => None,
            },
            start: self.start,
        }
    }
}

impl TextProcState {
    /// The open block, if any.
    pub closed spec fn model(&self) -> Option<BlockModel> {
        match self.code_block {
            Some(b) => Some(b.model()),
            None => None,
        }
    }

    pub fn new() -> (r: Self)
        ensures
            r.model() is None,
    {
        Self { code_block: None }
    }

    /// Processes one line; appends its text to `out` and returns whether the
    /// line was suppressed or rewritten.
    fn step_line<F: Fn(String) -> String>(
        &mut self,
        line: &Vec<char>,
        brk: bool,
        span: Span,
        render: &F,
        out: &mut Vec<char>,
    ) -> (rw: bool)
        requires
            valid_renderer(*render),
        ensures
            final(self).model() == line_step(old(self).model(), line@, span).0,
            final(out)@ == old(out)@ + line_text(line_step(old(self).model(), line@, span).1, line@, brk, *render),
            rw == !(line_step(old(self).model(), line@, span).1 is Keep),
    {
        let mut close = false;
        let mut keep = true;
        match &mut self.code_block {
            Some(code_block) => {
                if vec_eq(line, &code_block.fence) {
                    match code_block.captured.take() {
                        Some(captured) => {
                            keep = false;
                            let mut content = captured.content;
                            let ghost c = content@;
                            content.pop();
                            assert(content@ == drop_newline(c));
                            let art = string_of(&content);
                            let svg = render(art);
                            proof {
                                let rd = *render;
                                assert(renders_to(rd, content@, svg));
                                assert(rendered(rd, content@) == svg@);
                            }
                            push_svg_ref(out, svg.as_str());
                        },
                        None => {},
                    }
                    close = true;
                } else {
                    match &mut code_block.captured {
                        Some(captured) => {
                            let k = indent_len(line, &code_block.fence);
                            let ghost c = captured.content@;
                            push_range(&mut captured.content, line, k, line.len());
                            captured.content.push('\n');
                            assert(captured.content@ =~= c + strip_indent(line@, code_block.fence@) + seq!['\n']);
                            keep = false;
                        },
                        None => {},
                    }
                }
            },
            None => {
                let (n, tag) = match_fence(line);
                if n > 0 {
                    let mut fence: Vec<char> = Vec::new();
                    push_range(&mut fence, line, 0, n);
                    assert(fence@ =~= line@.subrange(0, n as int));
                    let captured = if is_target_tag(&tag) {
                        keep = false;
                        let content: Vec<char> = Vec::new();
                        assert(content@ =~= Seq::<char>::empty());
                        Some(CapturedCodeBlock { content })
                    } else {
                        None
                    };
                    self.code_block = Some(CodeBlock { fence, captured, start: span });
                }
            },
        }
        if close {
            self.code_block = None;
        }
        if keep {
            push_range(out, line, 0, line.len());
            if brk {
                out.push('\n');
            }
        }
        proof {
            assert(line@.subrange(0, line@.len() as int) =~= line@);
        }
        !keep
    }

    /// Processes one fragment, in order after the ones before it. Returns
    /// `Passthrough` when no line was suppressed or rewritten and no capture
    /// was in progress on entry; otherwise the text for the fragment, as
    /// `Empty` when that text is empty.
    pub fn step<F: Fn(String) -> String>(&mut self, fragment: &str, span: Span, render: F) -> (r: TextProcOutput)
        requires
            valid_renderer(render),
        ensures
            final(self).model() == step_output(old(self).model(), fragment@, span, render).0,
            r.text() == output_of(
                old(self).model(),
                step_output(old(self).model(), fragment@, span, render).1,
                step_output(old(self).model(), fragment@, span, render).2,
            ),
            r is Fragment ==> r->Fragment_0@.len() > 0,
    {
        let s = chars_of(fragment);
        let ghost st0 = self.model();
        let entry_cap = match &self.code_block {
            Some(b) => b.captured.is_some(),
            None => false,
        };
        let mut out: Vec<char> = Vec::new();
        let mut rw = false;
        let mut start: usize = 0;
        let mut i: usize = 0;
        while i < s.len()
            invariant
                valid_renderer(render),
                s@ == fragment@,
                start <= i <= s@.len(),
                step_output(st0, s@, span, render) == (
                    scan(self.model(), s@, start as int, i as int, span, render).0,
                    out@ + scan(self.model(), s@, start as int, i as int, span, render).1,
                    rw || scan(self.model(), s@, start as int, i as int, span, render).2,
                ),
            decreases s@.len() - i,
        {
            if s[i] == '\n' {
                let mut line: Vec<char> = Vec::new();
                push_range(&mut line, &s, start, i);
                assert(line@ =~= s@.subrange(start as int, i as int));
                let ghost st = self.model();
                let ghost out0 = out@;
                let r1 = self.step_line(&line, true, span, &render, &mut out);
                proof {
                    let (st1, ev) = line_step(st, line@, span);
                    let t2 = scan(st1, s@, i + 1, i + 1, span, render).1;
                    assert(out0 + (line_text(ev, line@, true, render) + t2) =~= out@ + t2);
                }
                rw = rw || r1;
                start = i + 1;
            }
            i = i + 1;
        }
        let mut line: Vec<char> = Vec::new();
        push_range(&mut line, &s, start, s.len());
        assert(line@ =~= s@.subrange(start as int, s@.len() as int));
        let r1 = self.step_line(&line, false, span, &render, &mut out);
        rw = rw || r1;
        if !entry_cap && !rw {
            TextProcOutput::Passthrough
        } else if out.len() == 0 {
            TextProcOutput::Empty
        } else {
            TextProcOutput::Fragment(string_of(&out))
        }
    }

    /// Ends the block. Fails when an `svgbob` block is still open, with the
    /// location where it opened.
    pub fn finalize(self) -> (r: Result<(), TextProcError>)
        ensures
            r == (match self.model() {
                Some(b) => match b.captured {
                    Some(_) => Err(TextProcError::UnclosedCodeBlock(b.start)),
                    None => Ok(()),
                },
                None => Ok(()),
            }),
    {
        match self.code_block {
            Some(code_block) => match code_block.captured {
                Some(_) => Err(TextProcError::UnclosedCodeBlock(code_block.start)),
                None => Ok(()),
            },
            None => Ok(()),
        }
    }
}

/// Whether `a` and `b` hold the same characters.
fn vec_eq(a: &Vec<char>, b: &Vec<char>) -> (r: bool)
    ensures
        r == (a@ == b@),
{
    if a.len() != b.len() {
        return false;
    }
    let mut i: usize = 0;
    while i < a.len()
        invariant
            a@.len() == b@.len(),
            i <= a@.len(),
            forall|j: int| 0 <= j < i ==> a@[j] == b@[j],
        decreases a@.len() - i,
    {
        if a[i] != b[i] {
            return false;
        }
        i = i + 1;
    }
    assert(a@ =~= b@);
    true
}

} // verus!
