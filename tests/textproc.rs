use proc_macro2::Span;
use svgbobdoc::encode::encode_svg;
use svgbobdoc::textproc::{TextProcError, TextProcOutput, TextProcState};

const PREFIX: &str = "![](data:image/svg+xml;base64,";

fn identity(art: String) -> String {
    art
}

fn run(chunks: &[&str]) -> (Vec<TextProcOutput>, TextProcState) {
    let mut st = TextProcState::new();
    let mut outs = Vec::new();
    for c in chunks {
        outs.push(st.step(c, Span::call_site(), identity));
    }
    (outs, st)
}

/// Decodes the diagram text out of a reference made with `identity`.
fn diagram_of(reference: &str) -> String {
    assert!(reference.starts_with(PREFIX));
    assert!(reference.ends_with(')'));
    let b64 = &reference[PREFIX.len()..reference.len() - 1];
    String::from_utf8(base64::decode(b64).unwrap()).unwrap()
}

fn fragment(o: &TextProcOutput) -> &str {
    match o {
        TextProcOutput::Fragment(t) => t,
        _ => panic!("expected a fragment"),
    }
}

#[test]
fn plain_text_passes_through() {
    let (outs, st) = run(&["hello", "world\n", "a ``b`` c", "   x\n\ny"]);
    assert!(outs.iter().all(|o| matches!(o, TextProcOutput::Passthrough)));
    assert!(st.finalize().is_ok());
}

#[test]
fn close_requires_exact_fence() {
    let (outs, st) = run(&["```svgbob", " ```", "````", "```"]);
    assert!(matches!(outs[0], TextProcOutput::Empty));
    assert!(matches!(outs[1], TextProcOutput::Empty));
    assert!(matches!(outs[2], TextProcOutput::Empty));
    assert_eq!(diagram_of(fragment(&outs[3])), " ```\n````");
    assert!(st.finalize().is_ok());
}

#[test]
fn close_requires_exact_fence_plain_block() {
    let (outs, st) = run(&["```", " ```", "````", "```", "```svgbob", "x", "```"]);
    for o in &outs[..6] {
        match o {
            TextProcOutput::Passthrough | TextProcOutput::Empty => {}
            _ => panic!("unexpected fragment"),
        }
    }
    assert!(matches!(outs[3], TextProcOutput::Passthrough));
    assert!(matches!(outs[4], TextProcOutput::Empty));
    assert_eq!(diagram_of(fragment(&outs[6])), "x");
    assert!(st.finalize().is_ok());
}

#[test]
fn indentation_is_stripped() {
    let (outs, st) = run(&["  ```svgbob", "   x", "  ```"]);
    assert_eq!(diagram_of(fragment(&outs[2])), " x");
    assert!(st.finalize().is_ok());
}

#[test]
fn indentation_with_other_characters_is_kept() {
    let (outs, _) = run(&["  ```svgbob", "\tx", " y", "  ```"]);
    assert_eq!(diagram_of(fragment(&outs[3])), "\tx\ny");
}

#[test]
fn other_language_passes_through_even_unclosed() {
    let (outs, st) = run(&["```rust", "fn main() {}", "```svgbob", "let x = 1;"]);
    assert!(outs.iter().all(|o| matches!(o, TextProcOutput::Passthrough)));
    assert!(st.finalize().is_ok());
}

#[test]
fn encoding_is_deterministic() {
    assert_eq!(encode_svg("<svg/>"), encode_svg("<svg/>"));
    assert_eq!(encode_svg("<svg/>"), "![](data:image/svg+xml;base64,PHN2Zy8+)");
    assert_eq!(encode_svg(""), "![](data:image/svg+xml;base64,)");
}

#[test]
fn end_to_end_block() {
    let mut st = TextProcState::new();
    let render = |art: String| svgbob::to_svg(&art);
    let mut outs = Vec::new();
    for c in ["```svgbob\n", "+-+\n", "| |\n", "+-+\n", "```\n"] {
        outs.push(st.step(c, Span::call_site(), render));
    }
    for o in &outs[..4] {
        assert!(matches!(o, TextProcOutput::Empty));
    }
    let t = fragment(&outs[4]);
    assert!(t.starts_with(PREFIX));
    assert!(t.ends_with(')'));
    let b64 = &t[PREFIX.len()..t.len() - 1];
    let svg = String::from_utf8(base64::decode(b64).unwrap()).unwrap();
    assert_eq!(svg, svgbob::to_svg("\n+-+\n\n| |\n\n+-+\n"));
    assert!(st.finalize().is_ok());
}

#[test]
fn end_to_end_block_content() {
    let (outs, st) = run(&["```svgbob\n", "+-+\n", "| |\n", "+-+\n", "```\n"]);
    assert_eq!(diagram_of(fragment(&outs[4])), "\n+-+\n\n| |\n\n+-+\n");
    assert!(st.finalize().is_ok());
}

#[test]
fn unclosed_block_is_an_error() {
    let (_, st) = run(&["```svgbob\n"]);
    match st.finalize() {
        Err(e) => {
            assert!(matches!(e, TextProcError::UnclosedCodeBlock(_)));
            assert_eq!(e.message(), "unclosed code block");
        }
        Ok(()) => panic!("expected an error"),
    }
}

#[test]
fn whole_block_in_one_fragment() {
    let (outs, st) = run(&["a\n```svgbob\nx\ny\n```\nb"]);
    let t = fragment(&outs[0]);
    let r = encode_svg("x\ny");
    assert_eq!(t, format!("a\n{}b", r));
    assert!(st.finalize().is_ok());
}

#[test]
fn chunking_does_not_change_block_output() {
    let (whole, _) = run(&["```svgbob\nx\n\ny\n```"]);
    let (split, _) = run(&["```svgbob\nx", "", "y\n```"]);
    assert!(matches!(split[0], TextProcOutput::Empty));
    assert!(matches!(split[1], TextProcOutput::Empty));
    assert_eq!(fragment(&whole[0]), fragment(&split[2]));
    assert_eq!(diagram_of(fragment(&whole[0])), "x\n\ny");
}

#[test]
fn tag_with_modifiers_captures() {
    let (outs, _) = run(&["~~~ svgbob,float ", "z", "~~~"]);
    assert!(matches!(outs[0], TextProcOutput::Empty));
    assert_eq!(diagram_of(fragment(&outs[2])), "z");
}

#[test]
fn near_miss_tags_and_fences_do_not_capture() {
    let (outs, st) = run(&["```svgbobx", "z", "```", "``svgbob", "    ```svgbob", "z"]);
    assert!(outs.iter().all(|o| matches!(o, TextProcOutput::Passthrough)));
    assert!(st.finalize().is_ok());
}

#[test]
fn empty_block_renders_empty_diagram() {
    let (outs, st) = run(&["```svgbob", "```"]);
    assert_eq!(diagram_of(fragment(&outs[1])), "");
    assert!(st.finalize().is_ok());
}

#[test]
fn text_after_close_in_same_fragment() {
    let (outs, _) = run(&["```svgbob", "q\n```\nafter\nmore"]);
    assert_eq!(fragment(&outs[1]), format!("{}after\nmore", encode_svg("q")));
}

#[test]
fn text_before_open_in_same_fragment() {
    let (outs, st) = run(&["before\n```svgbob"]);
    assert_eq!(fragment(&outs[0]), "before\n");
    assert!(st.finalize().is_err());
}

