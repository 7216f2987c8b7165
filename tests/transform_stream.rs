use lol_html_core::matching::ElementStack;
use lol_html_core::payload::PayloadSet;
use lol_html_core::program::{
    AttributeMatcher, ExecutionBranch, Instruction, LocalName, LocalNameExpr, Program,
    ProgramFlags, SelectorState,
};
use lol_html_core::transform_stream::{
    initial_parser_directive, Dispatcher, ParserDirective, TransformError, TransformStream, Tokenizer,
};

/// Scans `<name ...>` and `</name>` tags and matches each start tag.
struct TagScanner {
    program: Program,
    stack: ElementStack,
    matched: Vec<(Vec<u8>, Vec<u32>)>,
}

impl Tokenizer for TagScanner {
    fn set_directive(&mut self, _directive: ParserDirective) {}

    fn parse(&mut self, chunk: &[u8], is_last: bool) -> usize {
        let mut pos = 0;
        loop {
            let start = match chunk[pos..].iter().position(|&c| c == b'<') {
                None => return 0,
                Some(off) => pos + off,
            };
            let end = match chunk[start..].iter().position(|&c| c == b'>') {
                None => return if is_last { 0 } else { chunk.len() - start },
                Some(off) => start + off,
            };
            let tag = &chunk[start + 1..end];
            if tag.first() == Some(&b'/') {
                if self.stack.depth() > 0 {
                    self.stack.close_element();
                }
            } else {
                let name_len = tag.iter().position(|&c| c == b' ').unwrap_or(tag.len());
                let local_name = LocalName { bytes: tag[..name_len].to_vec() };
                let state = SelectorState { index: 1, type_index: 1 };
                let attrs = AttributeMatcher { attributes: vec![] };
                let payload = self.stack.open_element(&self.program, &state, &local_name, &attrs);
                let mut ids = payload.to_vec();
                ids.sort();
                if !ids.is_empty() {
                    self.matched.push((local_name.bytes, ids));
                }
            }
            pos = end + 1;
        }
    }
}

/// Returns a fixed count of blocked bytes, at most the chunk's length.
struct FixedTail {
    blocked: usize,
    seen: Vec<(Vec<u8>, bool)>,
    directive: Option<ParserDirective>,
}

impl Tokenizer for FixedTail {
    fn set_directive(&mut self, directive: ParserDirective) {
        self.directive = Some(directive);
    }

    fn parse(&mut self, chunk: &[u8], is_last: bool) -> usize {
        self.seen.push((chunk.to_vec(), is_last));
        self.blocked.min(chunk.len())
    }
}

#[derive(Default)]
struct Output {
    bytes: Vec<u8>,
    finished: bool,
}

impl Dispatcher for Output {
    fn flush_remaining_input(&mut self, chunk: &[u8], blocked_byte_count: usize) {
        self.bytes.extend_from_slice(&chunk[..chunk.len() - blocked_byte_count]);
    }

    fn finish(&mut self, chunk: &[u8]) {
        self.bytes.extend_from_slice(chunk);
        self.finished = true;
    }
}

fn tag(name: &str, payload: &[u32], hereditary_jumps: Option<std::ops::Range<usize>>) -> Instruction {
    Instruction {
        associated_branch: ExecutionBranch {
            matched_payload: PayloadSet::from_ids(payload),
            jumps: None,
            hereditary_jumps,
        },
        local_name_exprs: vec![LocalNameExpr::Is(name.as_bytes().to_vec())],
        attribute_exprs: vec![],
    }
}

fn div_span_program() -> Program {
    Program {
        instructions: vec![tag("div", &[], Some(1..2)), tag("span", &[7], None)],
        entry_points: 0..1,
        flags: ProgramFlags::empty(),
    }
}

fn run(parts: &[&[u8]], capacity: usize) -> (Vec<(Vec<u8>, Vec<u32>)>, Vec<u8>) {
    let scanner = TagScanner { program: div_span_program(), stack: ElementStack::new(), matched: vec![] };
    let mut stream = TransformStream::new(scanner, Output::default(), capacity, 0);
    for part in parts {
        stream.write(part).unwrap();
    }
    stream.end();
    assert!(stream.dispatcher().finished);
    (stream.parser().matched.clone(), stream.dispatcher().bytes.clone())
}

#[test]
fn split_tags_match_span_once() {
    let (matched, output) = run(&[b"<di", b"v><p><sp", b"an>"], 64);
    assert_eq!(matched, vec![(b"span".to_vec(), vec![7])]);
    assert_eq!(output, b"<div><p><span>".to_vec());
}

#[test]
fn split_points_do_not_change_output() {
    let input: &[u8] = b"<div>text<p class=x><span>a</span></p></div><span>";
    let (whole_matched, whole_output) = run(&[input], 64);
    assert_eq!(whole_output, input.to_vec());
    for cut in 0..=input.len() {
        let (matched, output) = run(&[&input[..cut], &input[cut..]], 64);
        assert_eq!(matched, whole_matched);
        assert_eq!(output, whole_output);
    }
    let bytes: Vec<&[u8]> = input.chunks(1).collect();
    let (matched, output) = run(&bytes, 64);
    assert_eq!(matched, whole_matched);
    assert_eq!(output, whole_output);
}

#[test]
fn unterminated_tag_resolved_at_end() {
    let (matched, output) = run(&[b"<div><span"], 64);
    assert!(matched.is_empty());
    assert_eq!(output, b"<div><span".to_vec());
}

#[test]
fn carry_over_of_exactly_capacity_succeeds() {
    let tok = FixedTail { blocked: 4, seen: vec![], directive: None };
    let mut stream = TransformStream::new(tok, Output::default(), 4, 0);
    assert_eq!(stream.write(b"ab<xyz"), Ok(()));
    assert_eq!(stream.parser().seen[0], (b"ab<xyz".to_vec(), false));
}

#[test]
fn carry_over_beyond_capacity_fails() {
    let tok = FixedTail { blocked: 5, seen: vec![], directive: None };
    let mut stream = TransformStream::new(tok, Output::default(), 4, 0);
    assert_eq!(stream.write(b"ab<xyzw"), Err(TransformError::BufferCapacityExceeded));
}

#[test]
fn carried_bytes_plus_data_may_exceed_capacity() {
    let tok = FixedTail { blocked: 3, seen: vec![], directive: None };
    let mut stream = TransformStream::new(tok, Output::default(), 4, 0);
    assert_eq!(stream.write(b"a<xy"), Ok(()));
    // 3 carried + 2 new exceed the capacity, but only 3 are carried on
    assert_eq!(stream.write(b"zz"), Ok(()));
    assert_eq!(stream.parser().seen[1], (b"<xyzz".to_vec(), false));
    assert_eq!(stream.dispatcher().bytes, b"a<x".to_vec());
}

#[test]
fn carry_over_beyond_capacity_fails_after_carry() {
    let tok = FixedTail { blocked: 5, seen: vec![], directive: None };
    let mut stream = TransformStream::new(tok, Output::default(), 4, 0);
    assert_eq!(stream.write(b"<abc"), Ok(()));
    assert_eq!(stream.write(b"de"), Err(TransformError::BufferCapacityExceeded));
}

#[test]
fn chunk_is_carried_tail_plus_data() {
    let tok = FixedTail { blocked: 2, seen: vec![], directive: None };
    let mut stream = TransformStream::new(tok, Output::default(), 8, 0);
    stream.write(b"abcd").unwrap();
    stream.write(b"ef").unwrap();
    stream.end();
    let seen = &stream.parser().seen;
    assert_eq!(seen[0], (b"abcd".to_vec(), false));
    assert_eq!(seen[1], (b"cdef".to_vec(), false));
    assert_eq!(seen[2], (b"ef".to_vec(), true));
    assert_eq!(stream.dispatcher().bytes, b"abcdef".to_vec());
}

#[test]
fn end_without_carry_passes_empty_last_chunk() {
    let tok = FixedTail { blocked: 0, seen: vec![], directive: None };
    let mut stream = TransformStream::new(tok, Output::default(), 8, 0);
    stream.write(b"abc").unwrap();
    stream.end();
    assert_eq!(stream.parser().seen[1], (vec![], true));
    assert!(stream.dispatcher().finished);
}

#[test]
fn buffer_blocked_bytes_keeps_tail_of_chunk() {
    let tok = FixedTail { blocked: 0, seen: vec![], directive: None };
    let mut stream = TransformStream::new(tok, Output::default(), 3, 0);
    assert_eq!(stream.buffer_blocked_bytes(b"hello", 3), Ok(()));
    assert_eq!(stream.buffer_blocked_bytes(b"hello", 4), Err(TransformError::BufferCapacityExceeded));
    assert_eq!(stream.buffer_blocked_bytes(b"hello", 0), Ok(()));
    stream.write(b"ab").unwrap();
    // nothing carried over after a zero count
    assert_eq!(stream.parser().seen[0], (b"ab".to_vec(), false));
}

#[test]
fn finished_reports_end() {
    let tok = FixedTail { blocked: 0, seen: vec![], directive: None };
    let mut stream = TransformStream::new(tok, Output::default(), 3, 0);
    assert!(!stream.finished());
    stream.end();
    assert!(stream.finished());
}

#[test]
fn context_explains_capacity_error() {
    assert_eq!(
        TransformError::BufferCapacityExceeded.context(),
        "This is caused by the parser encountering an extremely long tag or a comment that is captured by the specified selector."
    );
}

#[test]
fn nested_span_matches_until_div_closes() {
    let input: &[u8] = b"<div><p><b><span></span></b></p></div><span>";
    let (matched, output) = run(&[input], 64);
    assert_eq!(matched, vec![(b"span".to_vec(), vec![7])]);
    assert_eq!(output, input.to_vec());
}

#[test]
fn initial_directive_follows_capture_flags() {
    assert_eq!(initial_parser_directive(0), ParserDirective::WherePossibleScanForTagsOnly);
    assert_eq!(initial_parser_directive(3), ParserDirective::Lex);
    let tok = FixedTail { blocked: 0, seen: vec![], directive: None };
    let mut stream = TransformStream::new(tok, Output::default(), 8, 0);
    assert_eq!(stream.parser().directive, Some(ParserDirective::WherePossibleScanForTagsOnly));
    let tok = FixedTail { blocked: 0, seen: vec![], directive: None };
    let mut stream = TransformStream::new(tok, Output::default(), 8, 1);
    assert_eq!(stream.parser().directive, Some(ParserDirective::Lex));
}
