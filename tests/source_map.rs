use turbopack::context::Asset;
use turbopack::path::AbsoluteSystemPathBuf;
use turbopack::source::{find_line_and_column, line_starts, IssueSource, SourcePos};

#[test]
fn line_and_column_from_offsets() {
    let text = b"ab\ncde\n\nf";
    let lines = line_starts(text);
    assert_eq!(lines, vec![0, 3, 7, 8]);
    assert_eq!(find_line_and_column(&lines, 0), SourcePos { line: 0, column: 0 });
    assert_eq!(find_line_and_column(&lines, 4), SourcePos { line: 1, column: 1 });
    assert_eq!(find_line_and_column(&lines, 7), SourcePos { line: 2, column: 0 });
    assert_eq!(find_line_and_column(&lines, 9), SourcePos { line: 3, column: 1 });
    for o in 0..text.len() {
        let p = find_line_and_column(&lines, o);
        assert_eq!(text[lines[p.line] + p.column], text[o]);
    }
    assert_eq!(find_line_and_column(&vec![5, 9], 2), SourcePos { line: 0, column: 2 });
}

#[test]
fn issue_source_from_byte_offset() {
    let a = Asset::new(AbsoluteSystemPathBuf::parse("/x.js"), b"one\ntwo".to_vec());
    let s = IssueSource::from_byte_offset(a, 1, 5);
    assert_eq!(s.start, SourcePos { line: 0, column: 1 });
    assert_eq!(s.end, SourcePos { line: 1, column: 1 });
    let bin = Asset::new(AbsoluteSystemPathBuf::parse("/x.bin"), vec![0xff, 0xfe, 0x0a]);
    let s = IssueSource::from_byte_offset(bin, 1, 2);
    assert_eq!(s.start, SourcePos::start());
    assert_eq!(s.end, SourcePos::max());
}
