use marx_os::shell::{parse_command, split_words, Command, EditAction, LineEditor, MAX_LINE};

#[test]
fn editor_builds_and_submits_a_trimmed_line() {
    let mut e = LineEditor::new();
    for &b in b"  ls  " {
        let a = e.feed(b);
        assert!(matches!(a, EditAction::Echo(x) if x == b));
    }
    match e.feed(b'\n') {
        EditAction::Submit(l) => assert_eq!(l, b"ls".to_vec()),
        _ => panic!("expected a submitted line"),
    }
    match e.feed(b'\r') {
        EditAction::Submit(l) => assert!(l.is_empty()),
        _ => panic!("expected a submitted line"),
    }
}

#[test]
fn editor_backspace_and_control_keys() {
    let mut e = LineEditor::new();
    assert!(matches!(e.feed(0x08), EditAction::Ignore));
    e.feed(b'a');
    e.feed(b'b');
    assert!(matches!(e.feed(0x7f), EditAction::Erase));
    assert!(matches!(e.feed(0x01), EditAction::Ignore));
    match e.feed(b'\n') {
        EditAction::Submit(l) => assert_eq!(l, b"a".to_vec()),
        _ => panic!("expected a submitted line"),
    }
}

#[test]
fn editor_stops_at_max_line() {
    let mut e = LineEditor::new();
    for _ in 0..MAX_LINE {
        assert!(matches!(e.feed(b'x'), EditAction::Echo(_)));
    }
    assert!(matches!(e.feed(b'y'), EditAction::Ignore));
    match e.feed(b'\n') {
        EditAction::Submit(l) => assert_eq!(l.len(), MAX_LINE),
        _ => panic!("expected a submitted line"),
    }
}

#[test]
fn words_are_split_on_spaces() {
    let w = split_words(b" cat  welcome.txt ");
    assert_eq!(w, vec![b"cat".to_vec(), b"welcome.txt".to_vec()]);
    assert!(split_words(b"   ").is_empty());
}

#[test]
fn commands_are_recognised() {
    assert!(matches!(parse_command(b"help"), Command::Help));
    assert!(matches!(parse_command(b"about"), Command::About));
    assert!(matches!(parse_command(b"ls"), Command::Ls));
    assert!(matches!(parse_command(b"clear"), Command::Clear));
    assert!(matches!(parse_command(b"cls"), Command::Clear));
    assert!(matches!(parse_command(b"mem"), Command::Mem));
    assert!(matches!(parse_command(b"meow"), Command::Meow));
    assert!(matches!(parse_command(b"mouse"), Command::Mouse));
    assert!(matches!(parse_command(b"panic"), Command::Panic));
    assert!(matches!(parse_command(b"crash"), Command::Crash));
    assert!(matches!(parse_command(b""), Command::Empty));
}

#[test]
fn cat_takes_its_first_argument() {
    match parse_command(b"cat welcome.txt extra") {
        Command::Cat(Some(f)) => assert_eq!(f, b"welcome.txt".to_vec()),
        _ => panic!("expected cat with a file"),
    }
    assert!(matches!(parse_command(b"cat"), Command::Cat(None)));
}

#[test]
fn echo_joins_its_arguments() {
    match parse_command(b"echo hello   there  world") {
        Command::Echo(t) => assert_eq!(t, b"hello there world".to_vec()),
        _ => panic!("expected echo"),
    }
    match parse_command(b"echo") {
        Command::Echo(t) => assert!(t.is_empty()),
        _ => panic!("expected echo"),
    }
}

#[test]
fn unknown_commands_keep_their_word() {
    match parse_command(b"frobnicate now") {
        Command::Unknown(w) => assert_eq!(w, b"frobnicate".to_vec()),
        _ => panic!("expected an unknown command"),
    }
}
