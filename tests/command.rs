use drawer::{ArgError, Command, ParseError, Point};

fn command_variations(input: &str) -> Vec<String> {
    let capitalize = |s: &str| {
        let mut c = s.chars();
        c.next().unwrap().to_uppercase().chain(c).collect()
    };

    let mut vec: Vec<String> = Vec::new();
    for s in &[
        input.to_ascii_lowercase(),
        input.to_ascii_uppercase(),
        capitalize(input),
    ] {
        vec.push(s.clone());
        vec.push(format!(" {} ", s.clone()));
        vec.push(format!("\t{}\t\n", s.clone()));
        vec.push(s.split_whitespace().collect::<Vec<&str>>().join("\t"));
    }
    vec
}

#[test]
fn line_is_parsed() {
    let expected = Command::Line {
        from: Point(1, 2),
        to: Point(3, 4),
    };
    for input in command_variations("line 1 2 3 4") {
        let cmd = Command::from(input).unwrap();
        assert_eq!(expected, cmd);
    }
}

#[test]
fn rect_is_parsed() {
    let expected = Command::Rectangle {
        p1: Point(1, 2),
        p2: Point(3, 4),
    };

    for input in [
        &command_variations("rect 1 2 3 4")[..],
        &command_variations("rectangle 1 2 3 4")[..],
    ]
    .concat()
    {
        let cmd = Command::from(input.to_string()).unwrap();
        assert_eq!(expected, cmd);
    }
}

#[test]
fn circle_is_parsed() {
    let expected = Command::Circle {
        p: Point(1, 2),
        r: 3,
    };
    for input in [
        &command_variations("circ 1 2 3")[..],
        &command_variations("circle 1 2 3")[..],
    ]
    .concat()
    {
        let cmd = Command::from(input.to_string()).unwrap();
        assert_eq!(expected, cmd);
    }
}

#[test]
fn canvas_is_parsed() {
    let expected = Command::Canvas {
        width: 100,
        height: 200,
    };
    for input in [
        &command_variations("canv 100 200")[..],
        &command_variations("canvas 100 200")[..],
    ]
    .concat()
    {
        let cmd = Command::from(input.to_string()).unwrap();
        assert_eq!(expected, cmd);
    }
}

#[test]
fn char_is_parsed() {
    let expected = Command::Char('*');
    for input in command_variations("char *") {
        let cmd = Command::from(input.to_string()).unwrap();
        assert_eq!(expected, cmd);
    }
}

#[test]
fn read_is_parsed() {
    for input in &[
        ("file_name", "read\tfile_name "),
        ("FileName", " READ FileName"),
        ("File_NAME", "Read \tFile_NAME \n"),
    ] {
        let expected = Command::Read(input.0.to_string());
        let cmd = Command::from(input.1.to_string()).unwrap();
        assert_eq!(expected, cmd);
    }
}

#[test]
fn save_is_parsed() {
    for input in &[
        ("file_name", "save\tfile_name "),
        ("FileName", " SAVE FileName"),
        ("File_NAME", "Save \tFile_NAME \n"),
    ] {
        let expected = Command::Save(input.0.to_string());
        let cmd = Command::from(input.1.to_string()).unwrap();
        assert_eq!(expected, cmd);
    }
}

#[test]
fn info_is_parsed() {
    for input in command_variations("info") {
        let expected = Command::Info;
        let cmd = Command::from(input.to_string()).unwrap();
        assert_eq!(expected, cmd);
    }
}

#[test]
fn show_is_parsed() {
    for input in command_variations("show") {
        let expected = Command::Show;
        let cmd = Command::from(input.to_string()).unwrap();
        assert_eq!(expected, cmd);
    }
}

#[test]
fn quit_is_parsed() {
    for input in command_variations("quit") {
        let expected = Command::Quit;
        let cmd = Command::from(input.to_string()).unwrap();
        assert_eq!(expected, cmd);
    }
}

fn parse(s: &str) -> Result<Command, ParseError> {
    Command::from(s.to_string())
}

#[test]
fn spacing_and_case_do_not_matter() {
    let expected = Command::Line {
        from: Point(1, 2),
        to: Point(3, 4),
    };
    for s in ["LINE 1 2 3 4", "line\t1  2 3\t4", "Line 1 2 3 4 "] {
        assert_eq!(Ok(Command::Line { from: Point(1, 2), to: Point(3, 4) }), parse(s));
    }
    assert_eq!(Ok(expected), parse("\u{3000}line\u{a0}1\u{2003}2 3 4\r\n"));
}

#[test]
fn unknown_verbs_and_counts_are_refused() {
    for s in [
        "draw 1 2 3 4",
        "line 1 2 3",
        "line 1 2 3 4 5",
        "rect 1 2",
        "circle 1 2",
        "circ 1 2 3 4",
        "canvas 5",
        "char",
        "char a b",
        "read",
        "save a b",
        "info now",
        "show 1",
        "quit 0",
        "lines 1 2 3 4",
    ] {
        assert_eq!(Err(ParseError::UnknownCommand), parse(s), "{}", s);
    }
}

#[test]
fn empty_input_is_refused() {
    assert_eq!(Err(ParseError::EmptyInput), parse(""));
    assert_eq!(Err(ParseError::EmptyInput), parse(" \t\n "));
}

#[test]
fn bad_arguments_are_refused() {
    assert_eq!(Err(ParseError::InvalidArgument(ArgError::NotANumber)), parse("line 1 x 3 4"));
    assert_eq!(Err(ParseError::InvalidArgument(ArgError::NotANumber)), parse("circ -1 2 3"));
    assert_eq!(Err(ParseError::InvalidArgument(ArgError::NotANumber)), parse("canv + 2"));
    assert_eq!(
        Err(ParseError::InvalidArgument(ArgError::TooLarge)),
        parse("canv 2 99999999999999999999999")
    );
    assert_eq!(Err(ParseError::InvalidArgument(ArgError::NotOneChar)), parse("char ab"));
    // the first malformed argument decides
    assert_eq!(
        Err(ParseError::InvalidArgument(ArgError::TooLarge)),
        parse("rect 99999999999999999999999 y 1 1")
    );
}

#[test]
fn numbers_take_an_optional_plus() {
    assert_eq!(Ok(Command::Canvas { width: 5, height: 7 }), parse("canv +5 007"));
    assert_eq!(
        Ok(Command::Canvas { width: usize::MAX, height: 1 }),
        parse(&format!("canv {} 1", usize::MAX))
    );
}

#[test]
fn pen_takes_any_single_character() {
    assert_eq!(Ok(Command::Char('é')), parse("CHAR é"));
    assert_eq!(Ok(Command::Char('x')), parse("char x"));
}

#[test]
fn paths_keep_their_case() {
    assert_eq!(Ok(Command::Save("Out.TXT".to_string())), parse("save Out.TXT"));
}

#[test]
fn from_words_takes_an_upper_case_verb() {
    let args: Vec<String> = vec!["3".to_string(), "4".to_string()];
    assert_eq!(
        Ok(Command::Canvas { width: 3, height: 4 }),
        Command::from_words("CANVAS", &args)
    );
    assert_eq!(Err(ParseError::UnknownCommand), Command::from_words("canvas", &args));
    assert_eq!(Ok(Command::Quit), Command::from_words("QUIT", &Vec::new()));
}
