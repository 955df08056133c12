use swc_common::{
    calc_utf16_offset, BytePos, ByteToCharPosState, CharPos, FileName, FilePathMapping, LineInfo, SourceMap,
    SourceMapLookupError, Span, SpanLinesError, SpanSnippetError,
};

fn real_file(name: &str) -> FileName {
    FileName::Real(name.to_string())
}

fn init_source_map() -> SourceMap {
    let mut sm = SourceMap::new(FilePathMapping::empty());
    sm.new_source_file(real_file("blork.rs"), "first line.\nsecond line".to_string());
    sm.new_source_file(real_file("empty.rs"), String::new());
    sm.new_source_file(real_file("blork2.rs"), "first line.\nsecond line".to_string());
    sm
}

fn init_source_map_mbc() -> SourceMap {
    let mut sm = SourceMap::new(FilePathMapping::empty());
    // € is a three byte utf8 char.
    sm.new_source_file(real_file("blork.rs"), "fir€st €€€€ line.\nsecond line".to_string());
    sm.new_source_file(real_file("blork2.rs"), "first line€€.\n€ second line".to_string());
    sm
}

/// A span covering the `~` marks of `selection`, which lines up with `input`.
fn span_from_selection(input: &str, selection: &str) -> Span {
    assert_eq!(input.len(), selection.len());
    let left_index = (selection.find('~').unwrap() + 1) as u32;
    let right_index = selection.rfind('~').map(|x| (x + 1) as u32).unwrap_or(left_index);
    Span::new(BytePos(left_index), BytePos(right_index + 1))
}

#[test]
fn t3() {
    let sm = init_source_map();

    let srcfbp1 = sm.lookup_byte_offset(BytePos(24));
    assert_eq!(srcfbp1.sf.name, real_file("blork.rs"));
    assert_eq!(srcfbp1.pos, BytePos(23));

    let srcfbp1 = sm.lookup_byte_offset(BytePos(25));
    assert_eq!(srcfbp1.sf.name, real_file("empty.rs"));
    assert_eq!(srcfbp1.pos, BytePos(0));

    let srcfbp2 = sm.lookup_byte_offset(BytePos(26));
    assert_eq!(srcfbp2.sf.name, real_file("blork2.rs"));
    assert_eq!(srcfbp2.pos, BytePos(0));
}

#[test]
fn t4() {
    let sm = init_source_map();

    let cp1 = sm.bytepos_to_file_charpos(BytePos(23)).unwrap();
    assert_eq!(cp1, CharPos(22));

    let cp2 = sm.bytepos_to_file_charpos(BytePos(26)).unwrap();
    assert_eq!(cp2, CharPos(0));
}

#[test]
fn t5() {
    let sm = init_source_map();

    let loc1 = sm.lookup_char_pos(BytePos(23));
    assert_eq!(loc1.file.name, real_file("blork.rs"));
    assert_eq!(loc1.line, 2);
    assert_eq!(loc1.col, CharPos(10));

    let loc2 = sm.lookup_char_pos(BytePos(26));
    assert_eq!(loc2.file.name, real_file("blork2.rs"));
    assert_eq!(loc2.line, 1);
    assert_eq!(loc2.col, CharPos(0));
}

#[test]
fn t6() {
    let sm = init_source_map_mbc();

    let cp1 = sm.bytepos_to_file_charpos(BytePos(4)).unwrap();
    assert_eq!(cp1, CharPos(3));

    let cp2 = sm.bytepos_to_file_charpos(BytePos(7)).unwrap();
    assert_eq!(cp2, CharPos(4));

    let cp3 = sm.bytepos_to_file_charpos(BytePos(57)).unwrap();
    assert_eq!(cp3, CharPos(12));

    let cp4 = sm.bytepos_to_file_charpos(BytePos(62)).unwrap();
    assert_eq!(cp4, CharPos(15));
}

#[test]
fn t7() {
    let sm = init_source_map();
    let span = Span::new(BytePos(13), BytePos(24));
    let file_lines = sm.span_to_lines(span).unwrap();

    assert_eq!(file_lines.file.name, real_file("blork.rs"));
    assert_eq!(file_lines.lines.len(), 1);
    assert_eq!(file_lines.lines[0].line_index, 1);
}

#[test]
fn span_to_snippet_and_lines_spanning_multiple_lines() {
    let mut sm = SourceMap::new(FilePathMapping::empty());
    let inputtext = "aaaaa\nbbbbBB\nCCC\nDDDDDddddd\neee\n";
    let selection = "     \n    ~~\n~~~\n~~~~~     \n   \n";
    sm.new_source_file(real_file("blork.rs"), inputtext.to_string());
    let span = span_from_selection(inputtext, selection);

    assert_eq!(&sm.span_to_snippet(span).unwrap(), "BB\nCCC\nDDDDD");

    let lines = sm.span_to_lines(span).unwrap();
    let expected = vec![
        LineInfo { line_index: 1, start_col: CharPos(4), end_col: CharPos(6) },
        LineInfo { line_index: 2, start_col: CharPos(0), end_col: CharPos(3) },
        LineInfo { line_index: 3, start_col: CharPos(0), end_col: CharPos(5) },
    ];
    assert_eq!(lines.lines, expected);
}

#[test]
fn t8() {
    let sm = init_source_map();
    let span = Span::new(BytePos(13), BytePos(24));
    let snippet = sm.span_to_snippet(span);

    assert_eq!(snippet, Ok("second line".to_string()));
}

#[test]
fn t9() {
    let sm = init_source_map();
    let span = Span::new(BytePos(13), BytePos(24));
    let sstr = sm.span_to_string(span);

    assert_eq!(sstr, "blork.rs:2:1: 2:12");
}

#[test]
fn t10() {
    let mut sm = SourceMap::new(FilePathMapping::empty());
    sm.new_source_file(real_file("blork.rs"), String::new());
    let span = Span::new(BytePos(1), BytePos(1));
    let file_lines = sm.span_to_lines(span).unwrap();

    assert_eq!(file_lines.file.name, real_file("blork.rs"));
    assert_eq!(file_lines.lines.len(), 0);
}

#[test]
fn span_merging_fail() {
    let mut sm = SourceMap::new(FilePathMapping::empty());
    let inputtext = "bbbb BB\ncc CCC\n";
    let selection1 = "     ~~\n      \n";
    let selection2 = "       \n   ~~~\n";
    sm.new_source_file(real_file("blork.rs"), inputtext.to_string());
    let span1 = span_from_selection(inputtext, selection1);
    let span2 = span_from_selection(inputtext, selection2);

    assert!(sm.merge_spans(span1, span2).is_none());
}

#[test]
fn test_calc_utf16_offset() {
    let input = "t¢e∆s💩t";
    let mut sm = SourceMap::new(FilePathMapping::empty());
    let file = sm.new_source_file(real_file("blork.rs"), input.to_string());

    let mut state = ByteToCharPosState::default();
    let mut bpos = file.start_pos;
    let mut cpos = CharPos(bpos.to_usize());
    for c in input.chars() {
        let actual = bpos.to_u32() - calc_utf16_offset(&file, bpos, &mut state);

        assert_eq!(actual, cpos.0 as u32);

        bpos = BytePos(bpos.0 + c.len_utf8() as u32);
        cpos = CharPos(cpos.0 + c.len_utf16());
    }

    for c in input.chars().rev() {
        bpos = BytePos(bpos.0 - c.len_utf8() as u32);
        cpos = CharPos(cpos.0 - c.len_utf16());

        let actual = bpos.to_u32() - calc_utf16_offset(&file, bpos, &mut state);

        assert_eq!(actual, cpos.0 as u32);
    }
}

#[test]
fn bytepos_to_charpos() {
    let input = "t¢e∆s💩t";
    let mut sm = SourceMap::new(FilePathMapping::empty());
    let file = sm.new_source_file(real_file("blork.rs"), input.to_string());

    let mut bpos = file.start_pos;
    let mut cpos = CharPos(0);
    for c in input.chars() {
        let actual = sm.bytepos_to_file_charpos_with(&file, bpos);

        assert_eq!(actual, cpos);

        bpos = BytePos(bpos.0 + c.len_utf8() as u32);
        cpos = CharPos(cpos.0 + c.len_utf16());
    }
}

#[test]
fn snippet_errors() {
    let sm = init_source_map();
    assert_eq!(
        sm.span_to_snippet(Span { lo: BytePos(5), hi: BytePos(2) }),
        Err(SpanSnippetError::IllFormedSpan(Span { lo: BytePos(5), hi: BytePos(2) }))
    );
    assert_eq!(sm.span_to_snippet(Span { lo: BytePos(0), hi: BytePos(2) }), Err(SpanSnippetError::DummyBytePos));
    match sm.span_to_snippet(Span::new(BytePos(3), BytePos(27))) {
        Err(SpanSnippetError::DistinctSources(d)) => {
            assert_eq!(d.begin.0, real_file("blork.rs"));
            assert_eq!(d.begin.1, BytePos(1));
            assert_eq!(d.end.0, real_file("blork2.rs"));
            assert_eq!(d.end.1, BytePos(26));
        }
        other => panic!("unexpected {:?}", other),
    }
    let empty = SourceMap::new(FilePathMapping::empty());
    assert_eq!(
        empty.span_to_snippet(Span::new(BytePos(1), BytePos(2))),
        Err(SpanSnippetError::LookupFailed(SourceMapLookupError::NoFileFor(BytePos(1))))
    );
}

#[test]
fn snippet_inside_a_character_is_malformed() {
    let mut sm = SourceMap::new(FilePathMapping::empty());
    sm.new_source_file(real_file("m.rs"), "a€b".to_string());
    match sm.span_to_snippet(Span::new(BytePos(2), BytePos(3))) {
        Err(SpanSnippetError::MalformedForSourcemap(m)) => {
            assert_eq!(m.source_len, 5);
            assert_eq!(m.begin_pos, BytePos(1));
            assert_eq!(m.end_pos, BytePos(2));
        }
        other => panic!("unexpected {:?}", other),
    }
    assert_eq!(sm.span_to_snippet(Span::new(BytePos(2), BytePos(5))), Ok("€".to_string()));
}

#[test]
fn line_errors_and_lookup_errors() {
    let sm = init_source_map();
    assert_eq!(
        sm.span_to_lines(Span { lo: BytePos(9), hi: BytePos(3) }).err(),
        Some(SpanLinesError::IllFormedSpan(Span { lo: BytePos(9), hi: BytePos(3) }))
    );
    match sm.span_to_lines(Span::new(BytePos(3), BytePos(27))) {
        Err(SpanLinesError::DistinctSources(d)) => {
            assert_eq!(d.begin.1, BytePos(1));
            assert_eq!(d.end.1, BytePos(26));
        }
        _ => panic!("expected distinct sources"),
    }
    assert_eq!(sm.try_lookup_char_pos(BytePos(0)).err(), Some(SourceMapLookupError::NoFileFor(BytePos(0))));
    assert_eq!(sm.bytepos_to_file_charpos(BytePos(0)), Err(SourceMapLookupError::NoFileFor(BytePos(0))));
    assert!(sm.try_lookup_source_file(BytePos(0)).is_err());
}

#[test]
fn empty_file_location() {
    let sm = init_source_map();
    let loc = sm.lookup_char_pos(BytePos(25));
    assert_eq!(loc.file.name, real_file("empty.rs"));
    assert_eq!(loc.line, 0);
    assert_eq!(loc.col, CharPos(0));
    assert!(sm.lookup_line(BytePos(25)).is_err());
    assert_eq!(sm.lookup_line(BytePos(14)).ok().map(|l| l.line), Some(1));
}
