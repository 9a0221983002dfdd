use ssh4::terminal::output::{cpr_response, OutputParser, RemoteOutputEvent, DA1_REPLY, DA2_REPLY, DSR_OK_REPLY, MAX_PENDING};
use RemoteOutputEvent::{Cpr, Data, Response};

fn one_shot(input: &[u8]) -> Vec<RemoteOutputEvent> {
    OutputParser::new().process(input)
}

/// Feed `input` split at every possible byte boundary and assert the
/// combined events match the unsplit result.
fn assert_split_invariant(input: &[u8]) {
    let expected = one_shot(input);
    for cut in 1..input.len() {
        let mut p = OutputParser::new();
        let mut got = p.process(&input[..cut]);
        got.extend(p.process(&input[cut..]));
        let merged = merge_data(got);
        assert_eq!(merged, merge_data(expected.clone()), "split at byte {cut} diverged");
    }
}

fn merge_data(events: Vec<RemoteOutputEvent>) -> Vec<RemoteOutputEvent> {
    let mut out: Vec<RemoteOutputEvent> = Vec::new();
    for ev in events {
        match (out.last_mut(), ev) {
            (Some(Data(prev)), Data(next)) => prev.extend_from_slice(&next),
            (_, ev) => out.push(ev),
        }
    }
    out
}

fn merged_len(events: &[RemoteOutputEvent]) -> usize {
    events
        .iter()
        .map(|e| match e {
            Data(d) => d.len(),
            _ => 0,
        })
        .sum()
}

#[test]
fn plain_text_passes_through() {
    assert_eq!(one_shot(b"hello"), vec![Data(b"hello".to_vec())]);
}

#[test]
fn da1_query_answered_and_stripped() {
    assert_eq!(
        one_shot(b"ab\x1b[ccd"),
        vec![Data(b"ab".to_vec()), Response(DA1_REPLY.to_vec()), Data(b"cd".to_vec())]
    );
    assert_eq!(one_shot(b"\x1b[0c"), vec![Response(DA1_REPLY.to_vec())]);
}

#[test]
fn da2_query_answered() {
    assert_eq!(one_shot(b"\x1b[>c"), vec![Response(DA2_REPLY.to_vec())]);
    assert_eq!(one_shot(b"\x1b[>0c"), vec![Response(DA2_REPLY.to_vec())]);
}

#[test]
fn dsr_answered() {
    assert_eq!(one_shot(b"\x1b[5n"), vec![Response(DSR_OK_REPLY.to_vec())]);
}

#[test]
fn cpr_request_is_ordered_event() {
    assert_eq!(
        one_shot(b"before\x1b[6nafter"),
        vec![Data(b"before".to_vec()), Cpr, Data(b"after".to_vec())]
    );
}

#[test]
fn cpr_response_is_stripped() {
    assert_eq!(one_shot(b"ab\x1b[12;45Rcd"), vec![Data(b"abcd".to_vec())]);
}

#[test]
fn non_cpr_r_passes_through() {
    assert_eq!(one_shot(b"\x1b[2R"), vec![Data(b"\x1b[2R".to_vec())]);
}

#[test]
fn unknown_csi_passes_through() {
    assert_eq!(
        one_shot(b"\x1b[31mred\x1b[0m"),
        vec![Data(b"\x1b[31mred\x1b[0m".to_vec())]
    );
    assert_eq!(one_shot(b"\x1b[2J"), vec![Data(b"\x1b[2J".to_vec())]);
}

#[test]
fn mouse_mode_scanning() {
    let mut p = OutputParser::new();
    let ev = p.process(b"\x1b[?1000h");
    assert!(p.mouse_mode);
    assert_eq!(ev, vec![Data(b"\x1b[?1000h".to_vec())]);
    p.process(b"\x1b[?1000l");
    assert!(!p.mouse_mode);
    for seq in [&b"\x1b[?1002h"[..], b"\x1b[?1003h", b"\x1b[?1006h"] {
        let mut p = OutputParser::new();
        p.process(seq);
        assert!(p.mouse_mode, "expected {seq:?} to enable mouse mode");
    }
}

#[test]
fn bracketed_paste_scanning() {
    let mut p = OutputParser::new();
    p.process(b"\x1b[?2004h");
    assert!(p.bracketed_paste);
    p.process(b"\x1b[?2004l");
    assert!(!p.bracketed_paste);
}

#[test]
fn combined_private_modes() {
    let mut p = OutputParser::new();
    p.process(b"\x1b[?1006;2004h");
    assert!(p.mouse_mode);
    assert!(p.bracketed_paste);
}

#[test]
fn osc_color_query_bel() {
    let ev = one_shot(b"\x1b]11;?\x07");
    assert_eq!(ev.len(), 1);
    let Response(r) = &ev[0] else { panic!("expected response") };
    assert!(r.starts_with(b"\x1b]11;rgb:"));
    assert_eq!(*r.last().unwrap(), 0x07);
}

#[test]
fn osc_color_query_st() {
    let ev = one_shot(b"\x1b]10;?\x1b\\");
    let Response(r) = &ev[0] else { panic!("expected response") };
    assert!(r.starts_with(b"\x1b]10;rgb:"));
    assert!(r.ends_with(b"\x1b\\"));
}

#[test]
fn osc_cursor_color_query() {
    let ev = one_shot(b"\x1b]12;?\x07");
    assert!(matches!(&ev[0], Response(r) if r.starts_with(b"\x1b]12;rgb:")));
}

#[test]
fn non_query_osc_passes_through() {
    let seq = b"\x1b]0;my title\x07";
    assert_eq!(one_shot(seq), vec![Data(seq.to_vec())]);
}

#[test]
fn split_sequences_at_every_boundary() {
    assert_split_invariant(b"ab\x1b[ccd");
    assert_split_invariant(b"x\x1b[6ny");
    assert_split_invariant(b"\x1b[>0c");
    assert_split_invariant(b"\x1b[5n");
    assert_split_invariant(b"\x1b]11;?\x07");
    assert_split_invariant(b"\x1b]10;?\x1b\\");
    assert_split_invariant(b"a\x1b[12;45Rb");
    assert_split_invariant(b"\x1b[?2004hxyz\x1b[?2004l");
    assert_split_invariant(b"\x1b[?1000h\x1b[31mhi\x1b[0m\x1b[?1000l");
}

#[test]
fn coalesced_queries() {
    assert_eq!(
        one_shot(b"\x1b[c\x1b[6n\x1b[5n"),
        vec![Response(DA1_REPLY.to_vec()), Cpr, Response(DSR_OK_REPLY.to_vec())]
    );
}

#[test]
fn incomplete_sequence_buffers_across_reads() {
    let mut p = OutputParser::new();
    assert_eq!(p.process(b"abc\x1b"), vec![Data(b"abc".to_vec())]);
    assert_eq!(p.process(b"[6"), vec![]);
    assert_eq!(p.process(b"n"), vec![Cpr]);
}

#[test]
fn oversized_incomplete_sequence_flushes_as_data() {
    let mut p = OutputParser::new();
    let mut junk = b"\x1b]junk;".to_vec();
    junk.extend(std::iter::repeat(b'x').take(2000));
    let ev = p.process(&junk);
    assert_eq!(merged_len(&ev), junk.len());
    assert!(p.pending.is_empty());
}

#[test]
fn cpr_response_helper_format() {
    assert_eq!(cpr_response(3, 17), b"\x1b[3;17R");
}

#[test]
fn esc_non_csi_passes_through() {
    assert_eq!(one_shot(b"\x1b7x"), vec![Data(b"\x1b7x".to_vec())]);
}

#[test]
fn utf8_data_unmolested() {
    let text = "héllo wörld — ✓".as_bytes();
    assert_eq!(one_shot(text), vec![Data(text.to_vec())]);
}

#[test]
fn osc_reply_reports_the_configured_colors() {
    let ev = one_shot(b"\x1b]11;?\x07");
    assert_eq!(ev, vec![Response(b"\x1b]11;rgb:1e1e/1e1e/1e1e\x07".to_vec())]);
    let ev = one_shot(b"\x1b]10;?\x07");
    assert_eq!(ev, vec![Response(b"\x1b]10;rgb:d4d4/d4d4/d4d4\x07".to_vec())]);
}

#[test]
fn pending_never_exceeds_bound() {
    let mut p = OutputParser::new();
    p.process(b"\x1b[");
    assert_eq!(p.pending(), b"\x1b[");
    let mut long = Vec::new();
    long.extend(std::iter::repeat(b'1').take(MAX_PENDING + 10));
    p.process(&long);
    assert!(p.pending().len() <= MAX_PENDING);
}

#[test]
fn cpr_response_large_values() {
    assert_eq!(cpr_response(65535, 1), b"\x1b[65535;1R");
}
