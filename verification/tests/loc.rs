use ferric::loc::{num_digits, Loc, ProgramSrc, Span};

fn src() -> ProgramSrc {
    ProgramSrc::new("let x = 1;\nprint(x);".to_string())
}

#[test]
fn digit_counts() {
    assert_eq!(num_digits(0), 1);
    assert_eq!(num_digits(9), 1);
    assert_eq!(num_digits(10), 2);
    assert_eq!(num_digits(12345), 5);
    assert_eq!(num_digits(usize::MAX), usize::MAX.to_string().len());
}

#[test]
fn source_lines() {
    let s = src();
    assert_eq!(s.stream(), b"let x = 1;\nprint(x);".to_vec());
    assert!(s.get_line(0).is_none());
    let l1 = s.get_line(1).unwrap();
    assert_eq!((l1.contents, l1.num), ("let x = 1;", 1));
    // a line is shown without the newline that ends it; the last line has none
    let l2 = s.get_line(2).unwrap();
    assert_eq!((l2.contents, l2.num), ("print(x);", 2));
    assert!(s.get_line(3).is_none());
    assert_eq!(l1.display(3, "", ""), "  1 | let x = 1;");
    assert_eq!(l2.display(1, ":", "> "), "2: | > print(x);");
}

#[test]
fn trailing_newline() {
    // after a final newline comes one more, empty, line
    let s = ProgramSrc::new("a\n".to_string());
    assert_eq!(s.get_line(1).unwrap().contents, "a");
    assert_eq!(s.get_line(2).unwrap().contents, "");
    assert!(s.get_line(3).is_none());
    let crlf = ProgramSrc::new("x\r\ny".to_string());
    assert_eq!(crlf.get_line(1).unwrap().contents, "x\r");
    assert_eq!(Loc::new(2, 1).format(&s, "e"), "1 | a\n2 | \n  | ^ e\n");
}

#[test]
fn loc_format() {
    let s = src();
    let loc = Loc::new(2, 7);
    assert_eq!((loc.line(), loc.col()), (2, 7));
    assert_eq!(loc.format(&s, "here"), "1 | let x = 1;\n2 | print(x);\n  |       ^ here\n");
    assert_eq!(Loc::new(1, 1).format_with_len(&s, "m", 3), "\n1 | let x = 1;\n  | ^^^ m\n2 | print(x);");
}

#[test]
fn span_format() {
    let s = src();
    let one_line = Span::new(Loc::new(2, 1), Loc::new(2, 6));
    assert_eq!(one_line.format(&s, "bad"), "1 | let x = 1;\n2 | print(x);\n  | ^^^^^ bad\n");
    let two_lines = Span::new(Loc::new(1, 5), Loc::new(2, 3));
    assert_eq!(two_lines.format(&s, "m"), "\n1 |   let x = 1;\n  |  _____^\n2 | | print(x);\n  | |___^ m\n");
}

#[test]
fn span_join() {
    let a = Span::new(Loc::new(1, 4), Loc::new(2, 2));
    let b = Span::new(Loc::new(1, 2), Loc::new(1, 9));
    let j = a.join(b);
    assert_eq!((j.start(), j.end()), (Loc::new(1, 2), Loc::new(2, 2)));
    assert_eq!(b.join(a), j);
    assert_eq!(a.join(a), a);
    assert_eq!(Span::at(Loc::new(3, 3)), Span::new(Loc::new(3, 3), Loc::new(3, 3)));
    assert_eq!(Span::between(Loc::new(1, 1), Loc::new(1, 2)), Span::new(Loc::new(1, 1), Loc::new(1, 2)));
}

#[test]
fn loc_order() {
    assert!(Loc::new(1, 9).is_le(&Loc::new(2, 1)));
    assert!(Loc::new(2, 1).is_le(&Loc::new(2, 1)));
    assert!(!Loc::new(2, 2).is_le(&Loc::new(2, 1)));
    assert!(Loc::new(1, 9) < Loc::new(2, 1));
}

#[test]
fn span_one_line_as_position() {
    let s = ProgramSrc::new("ab\ncd\nef\n".to_string());
    assert_eq!(Loc::new(1, 2).format(&s, "m"), "\n1 | ab\n  |  ^ m\n2 | cd");
    assert_eq!(Loc::new(1, 2).format(&s, "m"), Loc::new(1, 2).format_with_len(&s, "m", 1));
    let span = Span::new(Loc::new(2, 1), Loc::new(2, 3));
    assert_eq!(span.format(&s, "m"), Loc::new(2, 1).format_with_len(&s, "m", 2));
}
