use swc_common::{
    default_ignore_list, default_inline_sources_content, default_skip,
    charpos_to_bytepos, EmitColumns, Files, BytePos, CharPos, DefaultSourceMapGenConfig, FileName, FilePathMapping, LineCol,
    SourceMap, Span, StableSourceFileId,
};

fn real_file(name: &str) -> FileName {
    FileName::Real(name.to_string())
}

#[test]
fn registered_files_are_disjoint() {
    let mut sm = SourceMap::new(FilePathMapping::empty());
    let a = sm.new_source_file(real_file("a.rs"), "abc".to_string());
    let b = sm.new_source_file(real_file("b.rs"), String::new());
    let c = sm.new_source_file(real_file("c.rs"), "xy".to_string());
    assert_eq!((a.start_pos, a.end_pos), (BytePos(1), BytePos(4)));
    assert_eq!((b.start_pos, b.end_pos), (BytePos(5), BytePos(5)));
    assert_eq!((c.start_pos, c.end_pos), (BytePos(6), BytePos(8)));
    assert!(a.end_pos.0 < b.start_pos.0 && b.end_pos.0 < c.start_pos.0);
}

#[test]
fn char_pos_round_trip() {
    let input = "t¢e∆s💩t";
    let mut sm = SourceMap::new(FilePathMapping::empty());
    let file = sm.new_source_file(real_file("blork.rs"), input.to_string());
    let mut b = file.start_pos.0;
    for c in input.chars() {
        let cp = sm.bytepos_to_file_charpos_with(&file, BytePos(b));
        assert_eq!(charpos_to_bytepos(&file, cp.0), BytePos(b));
        b += c.len_utf8() as u32;
    }
    let cp = sm.bytepos_to_file_charpos_with(&file, BytePos(b));
    assert_eq!(cp, CharPos(8));
    assert_eq!(charpos_to_bytepos(&file, cp.0), BytePos(b));
}

#[test]
fn line_lookup_inverts_line_starts() {
    let mut sm = SourceMap::new(FilePathMapping::empty());
    let f = sm.new_source_file(real_file("l.rs"), "ab\ncd\n\nef".to_string());
    assert_eq!(f.lines, vec![BytePos(1), BytePos(4), BytePos(7), BytePos(8)]);
    assert_eq!(f.lookup_line(BytePos(1)), Some(0));
    assert_eq!(f.lookup_line(BytePos(3)), Some(0));
    assert_eq!(f.lookup_line(BytePos(4)), Some(1));
    assert_eq!(f.lookup_line(BytePos(7)), Some(2));
    assert_eq!(f.lookup_line(BytePos(9)), Some(3));
    assert_eq!(f.lookup_line(BytePos(0)), None);
}

#[test]
fn trailing_newline_adds_no_line() {
    let mut sm = SourceMap::new(FilePathMapping::empty());
    let f = sm.new_source_file(real_file("l.rs"), "ab\n".to_string());
    assert_eq!(f.lines, vec![BytePos(1)]);
    assert_eq!(f.count_lines(), 1);
}

#[test]
fn snippet_of_whole_file() {
    let mut sm = SourceMap::new(FilePathMapping::empty());
    sm.new_source_file(real_file("x.rs"), "one".to_string());
    let f = sm.new_source_file(real_file("y.rs"), "fn main() {}\n€".to_string());
    assert_eq!(sm.span_to_snippet(Span::new(f.start_pos, f.end_pos)), Ok("fn main() {}\n€".to_string()));
}

#[test]
fn adjusters_leave_span_without_target() {
    let mut sm = SourceMap::new(FilePathMapping::empty());
    sm.new_source_file(real_file("x.rs"), "let x = 1;".to_string());
    let sp = Span::new(BytePos(1), BytePos(6));
    assert_eq!(sm.span_through_char(sp, '#'), sp);
    assert_eq!(sm.span_until_char(sp, '#'), sp);
    assert_eq!(sm.span_through_char(sp, ' '), Span::new(BytePos(1), BytePos(5)));
    assert_eq!(sm.span_until_char(sp, ' '), Span::new(BytePos(1), BytePos(4)));
}

#[test]
fn merging_on_one_line() {
    let mut sm = SourceMap::new(FilePathMapping::empty());
    sm.new_source_file(real_file("m.rs"), "aa bb cc\ndd".to_string());
    let a = Span::new(BytePos(1), BytePos(3));
    let b = Span::new(BytePos(7), BytePos(9));
    let u = sm.merge_spans(a, b).unwrap();
    assert_eq!(u, Span::new(BytePos(1), BytePos(9)));
    assert!(sm.merge_spans(b, a).is_none());
    assert!(sm.merge_spans(a, Span::new(BytePos(10), BytePos(12))).is_none());
}

#[test]
fn one_record_per_line_without_columns() {
    let mut sm = SourceMap::new(FilePathMapping::empty());
    sm.new_source_file(real_file("a.js"), "let a = 1;".to_string());
    let mappings = vec![
        (BytePos(1), LineCol { line: 0, col: 0 }),
        (BytePos(5), LineCol { line: 0, col: 4 }),
    ];
    let without = sm.build_source_map(&mappings, None, &EmitColumns { inner: DefaultSourceMapGenConfig, emit_columns: false });
    assert_eq!(without.get_token_count(), 1);
    let with = sm.build_source_map(&mappings, None, &EmitColumns { inner: DefaultSourceMapGenConfig, emit_columns: true });
    assert_eq!(with.get_token_count(), 2);
    let t = with.get_token(1).unwrap();
    assert_eq!((t.get_dst_line(), t.get_dst_col(), t.get_src_line(), t.get_src_col()), (0, 4, 0, 4));
}

#[test]
fn utf16_columns_in_emitted_map() {
    let mut sm = SourceMap::new(FilePathMapping::empty());
    sm.new_source_file(real_file("a.js"), "x\n💩y".to_string());
    let mappings = vec![(BytePos(7), LineCol { line: 3, col: 1 })];
    let map = sm.build_source_map(&mappings, None, &DefaultSourceMapGenConfig);
    let t = map.get_token(0).unwrap();
    assert_eq!((t.get_src_line(), t.get_src_col()), (1, 2));
    assert_eq!(map.get_source(0).map(|s| &s[..]), Some("a.js"));
}

#[test]
fn reserved_and_dummy_positions_are_skipped() {
    let mut sm = SourceMap::new(FilePathMapping::empty());
    sm.new_source_file(real_file("a.js"), "abc".to_string());
    let mappings = vec![
        (BytePos(0), LineCol { line: 0, col: 0 }),
        (BytePos(u32::MAX - 5), LineCol { line: 0, col: 1 }),
        (BytePos(u32::MAX), LineCol { line: 1, col: 0 }),
    ];
    let map = sm.build_source_map(&mappings, None, &DefaultSourceMapGenConfig);
    assert_eq!(map.get_token_count(), 1);
    assert!(BytePos(u32::MAX - 5).is_reserved_for_comments());
    assert!(!BytePos(u32::MAX).is_reserved_for_comments());
}

#[test]
fn path_prefix_mapping() {
    let m = FilePathMapping::new(vec![
        ("/src".to_string(), "/a".to_string()),
        ("/src/lib".to_string(), "/b".to_string()),
    ]);
    assert_eq!(m.map_prefix("/src/lib/x.rs"), ("/b/x.rs".to_string(), true));
    assert_eq!(m.map_prefix("/src/y.rs"), ("/a/y.rs".to_string(), true));
    assert_eq!(m.map_prefix("/srcs/y.rs"), ("/srcs/y.rs".to_string(), false));
    let mut sm = SourceMap::new(m);
    let f = sm.new_source_file(real_file("/src/z.rs"), "z".to_string());
    assert_eq!(f.name, real_file("/a/z.rs"));
    assert!(f.name_was_remapped);
    assert_eq!(f.unmapped_path, Some(real_file("/src/z.rs")));
}

#[test]
fn bom_is_removed() {
    let mut sm = SourceMap::new(FilePathMapping::empty());
    let f = sm.new_source_file(real_file("b.rs"), "\u{feff}ab".to_string());
    assert_eq!(f.src, "ab");
    assert_eq!(f.end_pos, BytePos(3));
}

#[test]
fn stable_ids_follow_names() {
    let mut sm = SourceMap::new(FilePathMapping::empty());
    let a = sm.new_source_file(real_file("a.rs"), "x".to_string());
    let b = sm.new_source_file(real_file("b.rs"), "x".to_string());
    let a2 = sm.new_source_file(real_file("a.rs"), "y".to_string());
    let ia = StableSourceFileId::new(&a);
    assert_eq!(ia, StableSourceFileId::new(&a2));
    assert_ne!(ia, StableSourceFileId::new(&b));
    assert!(sm.source_file_by_stable_id(StableSourceFileId::new(&b)).is_some());
    assert_eq!(sm.source_file_by_stable_id(ia).unwrap().start_pos, a2.start_pos);
}

#[test]
fn display_columns_count_wide_characters() {
    let mut sm = SourceMap::new(FilePathMapping::empty());
    sm.new_source_file(real_file("w.rs"), "中文x\tb".to_string());
    let loc = sm.lookup_char_pos(BytePos(7));
    assert_eq!(loc.col, CharPos(2));
    assert_eq!(loc.col_display, 4);
    let loc = sm.lookup_char_pos(BytePos(9));
    assert_eq!(loc.col, CharPos(4));
    assert_eq!(loc.col_display, 9);
}

#[test]
fn points_of_a_span() {
    let mut sm = SourceMap::new(FilePathMapping::empty());
    sm.new_source_file(real_file("p.rs"), "a€bc".to_string());
    let sp = Span::new(BytePos(1), BytePos(5));
    assert_eq!(sm.end_point(sp), Span::new(BytePos(2), BytePos(5)));
    assert_eq!(sm.start_point(sp), Span::new(BytePos(1), BytePos(4)));
    assert_eq!(sm.next_point(Span::new(BytePos(1), BytePos(2))), Span::new(BytePos(2), BytePos(4)));
}

#[test]
fn extending_spans() {
    let mut sm = SourceMap::new(FilePathMapping::empty());
    sm.new_source_file(real_file("e.rs"), "fn foo(a: T) { x }".to_string());
    let t = Span::new(BytePos(11), BytePos(12));
    assert_eq!(sm.span_extend_to_prev_char(t, '('), Span::new(BytePos(8), BytePos(12)));
    assert_eq!(sm.span_extend_to_next_char(Span::new(BytePos(1), BytePos(3)), '('), Span::new(BytePos(1), BytePos(7)));
    assert_eq!(sm.span_extend_to_prev_str(t, "fn", false), Span::new(BytePos(4), BytePos(12)));
    assert_eq!(sm.span_extend_to_next_str(Span::new(BytePos(1), BytePos(2)), "{", false), Span::new(BytePos(1), BytePos(13)));
    assert_eq!(sm.span_until_whitespace(Span::new(BytePos(1), BytePos(8))), Span::new(BytePos(1), BytePos(3)));
    assert_eq!(sm.span_until_non_whitespace(Span::new(BytePos(1), BytePos(8))), Span::new(BytePos(1), BytePos(4)));
    assert_eq!(sm.def_span(Span::new(BytePos(1), BytePos(19))), Span::new(BytePos(1), BytePos(13)));
    assert_eq!(sm.span_to_margin(Span::new(BytePos(4), BytePos(5))), Some(0));
    assert_eq!(sm.span_to_prev_source(Span::new(BytePos(4), BytePos(5))), Ok("fn ".to_string()));
    assert_eq!(sm.span_to_next_source(Span::new(BytePos(16), BytePos(17))), Ok(" }".to_string()));
}

#[test]
fn margin_of_indented_line() {
    let mut sm = SourceMap::new(FilePathMapping::empty());
    sm.new_source_file(real_file("m.rs"), "a\n    b".to_string());
    assert_eq!(sm.span_to_margin(Span::new(BytePos(7), BytePos(8))), Some(4));
    assert!(sm.is_multiline(Span::new(BytePos(1), BytePos(7))));
    assert!(!sm.is_multiline(Span::new(BytePos(3), BytePos(7))));
}

#[test]
fn names_display_and_strings() {
    assert_eq!(FileName::Anon.to_display_string(), "<anon>");
    assert_eq!(FileName::Custom("x".to_string()).to_display_string(), "<x>");
    let mut sm = SourceMap::new(FilePathMapping::empty());
    assert_eq!(sm.span_to_string(Span::new(BytePos(0), BytePos(0))), "no-location");
    sm.new_source_file(FileName::Custom("c".to_string()), "ab\ncd".to_string());
    assert_eq!(sm.mk_substr_filename(Span::new(BytePos(5), BytePos(5))), "<<c>:2:2>");
    assert_eq!(sm.get_source_file(&FileName::Custom("c".to_string())).unwrap().start_pos, BytePos(1));
    assert!(sm.get_source_file(&FileName::Anon).is_none());
    assert_eq!(sm.count_lines(), 2);
}

#[test]
fn char_offsets_of_span() {
    let mut sm = SourceMap::new(FilePathMapping::empty());
    let f = sm.new_source_file(real_file("o.rs"), "💩ab".to_string());
    assert_eq!(sm.span_to_char_offset(&f, Span::new(BytePos(5), BytePos(7))), (2, 4));
}

#[test]
fn function_name_suggestions() {
    let mut sm = SourceMap::default();
    sm.new_source_file(real_file("s.rs"), "fn my_function(param: T)".to_string());
    let t = Span::new(BytePos(23), BytePos(24));
    assert_eq!(sm.generate_fn_name_span(t), Some(Span::new(BytePos(4), BytePos(15))));
    let (sp, text) = sm.generate_local_type_param_snippet(t).unwrap();
    assert_eq!(sp, Span::new(BytePos(4), BytePos(15)));
    assert_eq!(text, "my_function<T>");
}

#[test]
fn generic_function_suggestion() {
    let mut sm = SourceMap::default();
    sm.new_source_file(real_file("g.rs"), "fn f<A>(x: B)".to_string());
    let b = Span::new(BytePos(12), BytePos(13));
    let (sp, text) = sm.generate_local_type_param_snippet(b).unwrap();
    assert_eq!(sp, Span::new(BytePos(4), BytePos(8)));
    assert_eq!(text, "f<A, B>");
    assert!(sm.generate_local_type_param_snippet(Span::new(BytePos(1), BytePos(3))).is_none());
}

#[test]
fn take_while_digits() {
    let mut sm = SourceMap::default();
    sm.new_source_file(real_file("d.rs"), "123abc".to_string());
    let sp = Span::new(BytePos(1), BytePos(7));
    assert_eq!(sm.span_take_while(sp, |c: char| c.is_ascii_digit()), Span::new(BytePos(1), BytePos(4)));
    assert_eq!(sm.span_take_while(sp, |_c: char| true), sp);
}

#[test]
fn snippet_callbacks() {
    let mut sm = SourceMap::default();
    sm.new_source_file(real_file("c.rs"), "abc def".to_string());
    let sp = Span::new(BytePos(5), BytePos(8));
    assert_eq!(sm.with_snippet_of_span(sp, |s: &str| s.len()), Ok(3));
    assert_eq!(sm.with_span_to_prev_source(sp, |s: &str| s.to_string()), Ok("abc ".to_string()));
    assert_eq!(sm.with_span_to_next_source(Span::new(BytePos(1), BytePos(2)), |s: &str| s.to_string()), Ok("bc def".to_string()));
}

#[test]
fn adjusters_without_match_keep_span() {
    let mut sm = SourceMap::default();
    sm.new_source_file(real_file("w.rs"), "ab cd".to_string());
    let ab_sp = Span::new(BytePos(1), BytePos(4));
    assert_eq!(sm.span_until_char(ab_sp, 'x'), ab_sp);
    let cd = Span::new(BytePos(4), BytePos(6));
    assert_eq!(sm.span_extend_to_prev_char(cd, 'x'), cd);
    let ab = Span::new(BytePos(1), BytePos(3));
    assert_eq!(sm.span_extend_to_next_char(ab, 'x'), ab);
    assert_eq!(sm.span_extend_to_prev_str(cd, "zz", true), cd);
    assert_eq!(sm.span_extend_to_next_str(ab, "zz", true), ab);
    assert_eq!(sm.span_until_char(ab_sp, ' '), ab);
}

#[test]
fn positions_past_the_last_file_fail() {
    let mut sm = SourceMap::default();
    sm.new_source_file(real_file("a.rs"), "abcde".to_string());
    assert!(sm.try_lookup_source_file(BytePos(6)).is_ok());
    assert_eq!(
        sm.try_lookup_source_file(BytePos(7)).err(),
        Some(swc_common::SourceMapLookupError::NoFileFor(BytePos(7)))
    );
    assert!(sm.try_lookup_byte_offset(BytePos(9)).is_err());
}

#[test]
fn unlocatable_spans_are_tolerated() {
    let mut sm = SourceMap::default();
    sm.new_source_file(real_file("a.rs"), "ab\ncd".to_string());
    let dummy = Span::new(BytePos(0), BytePos(0));
    assert_eq!(
        sm.span_to_lines(dummy).err(),
        Some(swc_common::SpanLinesError::LookupFailed(swc_common::SourceMapLookupError::NoFileFor(BytePos(0))))
    );
    assert!(!sm.is_multiline(dummy));
    assert_eq!(sm.span_to_string(dummy), "no-location");
    assert_eq!(sm.span_to_string(Span::new(BytePos(1), BytePos(40))), "no-location");
}

#[test]
fn upstream_map_is_composed() {
    let mut sm = SourceMap::default();
    sm.new_source_file(real_file("a.js"), "let a = 1;".to_string());
    let mappings = vec![(BytePos(1), LineCol { line: 0, col: 0 })];
    let upstream = sm.build_source_map(&mappings, None, &DefaultSourceMapGenConfig);
    let upstream_sources: Vec<String> = (0..upstream.get_source_count()).map(|i| upstream.get_source(i).unwrap().to_string()).collect();
    let composed = sm.build_source_map(&mappings, Some(upstream), &DefaultSourceMapGenConfig);
    let sources: Vec<String> = (0..composed.get_source_count()).map(|i| composed.get_source(i).unwrap().to_string()).collect();
    assert_eq!(sources, upstream_sources);
    assert_eq!(composed.get_token_count(), 1);
}

#[test]
fn contents_and_ignore_list_follow_config() {
    let mut sm = SourceMap::default();
    sm.new_source_file(FileName::Anon, "x".to_string());
    sm.new_source_file(real_file("r.js"), "y".to_string());
    let mappings = vec![(BytePos(1), LineCol { line: 0, col: 0 }), (BytePos(3), LineCol { line: 1, col: 0 })];
    let map = sm.build_source_map(&mappings, None, &DefaultSourceMapGenConfig);
    assert_eq!(map.get_source_count(), 2);
    assert_eq!(map.get_source_contents(0).map(|s| s.to_string()), Some("x".to_string()));
    assert_eq!(map.get_source_contents(1), None);
    assert!(map.ignore_list().any(|&i| i == 0));
    assert!(!map.ignore_list().any(|&i| i == 1));
}

#[test]
fn checked_emission_rejects_large_coordinates() {
    let mut sm = SourceMap::default();
    sm.new_source_file(real_file("a.js"), "let a = 1;".to_string());
    let small = vec![(BytePos(1), LineCol { line: 0, col: 0 })];
    let upstream = sm.build_source_map(&small, None, &DefaultSourceMapGenConfig);
    let big = vec![(BytePos(1), LineCol { line: 0x8000_0000, col: 0 })];
    assert!(sm.build_source_map_checked(&big, Some(upstream), &DefaultSourceMapGenConfig).is_none());
    let upstream = sm.build_source_map(&small, None, &DefaultSourceMapGenConfig);
    assert!(sm.build_source_map_checked(&small, Some(upstream), &DefaultSourceMapGenConfig).is_some());
    assert!(sm.build_source_map_checked(&big, None, &DefaultSourceMapGenConfig).is_some());
}

#[test]
fn files_trait_on_source_map() {
    let mut sm = SourceMap::default();
    let f = sm.new_source_file(real_file("a.js"), "abc".to_string());
    assert_eq!(Files::map_raw_pos(&sm, BytePos(2)), BytePos(2));
    assert!(Files::is_in_file(&sm, &f, BytePos(3)));
    assert!(!Files::is_in_file(&sm, &f, BytePos(4)));
    assert!(Files::try_lookup_source_file(&sm, BytePos(4)).is_ok());
    assert!(Files::try_lookup_source_file(&sm, BytePos(9)).is_err());
    assert!(swc_common::SourceMap::lookup_source_file_in(sm.files(), BytePos(9)).is_some());
}

#[test]
fn default_config_decisions() {
    assert!(default_skip(&FileName::Internal("x".to_string())));
    assert!(!default_skip(&FileName::Anon));
    assert!(default_ignore_list(&FileName::Anon));
    assert!(!default_ignore_list(&real_file("a.rs")));
    assert!(default_inline_sources_content(&FileName::Anon));
    assert!(!default_inline_sources_content(&real_file("a.rs")));
}
