use cargo_cult::writer::{
    expand_newlines, print_commands, write_command, Multiplexer, OutputCommand, SendError,
};

fn write(bytes: &[u8]) -> OutputCommand {
    OutputCommand::Write(bytes.to_vec())
}

#[test]
fn two_flushes_make_two_deliveries() {
    let commands =
        vec![write(b"a"), write(b"b"), OutputCommand::Flush, write(b"c"), OutputCommand::Flush];
    let mut mux = Multiplexer::new();
    assert_eq!(mux.drain(&commands), Ok(vec![b"ab".to_vec(), b"c".to_vec()]));
    assert_eq!(mux.pending_len(), 0);
}

#[test]
fn deliveries_do_not_depend_on_where_the_queue_is_cut() {
    let commands =
        vec![write(b"a"), write(b"b"), OutputCommand::Flush, write(b"c"), OutputCommand::Flush];
    for cut in 0..=commands.len() {
        let mut mux = Multiplexer::new();
        let mut delivered = mux.drain(&commands[..cut]).unwrap();
        delivered.extend(mux.drain(&commands[cut..]).unwrap());
        assert_eq!(delivered, vec![b"ab".to_vec(), b"c".to_vec()]);
    }
}

#[test]
fn commands_apply_one_by_one() {
    let mut mux = Multiplexer::new();
    assert_eq!(mux.apply(&write(b"he")), Ok(None));
    assert_eq!(mux.apply(&write(b"llo")), Ok(None));
    assert_eq!(mux.pending_len(), 5);
    assert_eq!(mux.apply(&OutputCommand::Flush), Ok(Some(b"hello".to_vec())));
    assert_eq!(mux.pending_len(), 0);
}

#[test]
fn a_flush_with_nothing_waiting_delivers_nothing_in_one_piece() {
    let mut mux = Multiplexer::new();
    assert_eq!(mux.apply(&OutputCommand::Flush), Ok(Some(Vec::new())));
}

#[test]
fn writes_without_a_flush_are_not_delivered() {
    let mut mux = Multiplexer::new();
    assert_eq!(mux.drain(&[write(b"a"), write(b"b")]), Ok(Vec::new()));
    assert_eq!(mux.pending_len(), 2);
}

#[test]
fn a_stopped_multiplexer_refuses_commands() {
    let mut mux = Multiplexer::new();
    assert_eq!(mux.apply(&write(b"abc")), Ok(None));
    assert!(!mux.is_stopped());
    mux.stop();
    assert!(mux.is_stopped());
    assert_eq!(mux.apply(&write(b"d")), Err(SendError));
    assert_eq!(mux.apply(&OutputCommand::Flush), Err(SendError));
    assert_eq!(mux.drain(&[OutputCommand::Flush]), Err(SendError));
    assert_eq!(mux.pending_len(), 3);
}

#[test]
fn line_feeds_become_line_breaks() {
    assert_eq!(expand_newlines("a\nb\n"), "a\r\nb\r\n");
    assert_eq!(expand_newlines("plain"), "plain");
    assert_eq!(expand_newlines(""), "");
    assert_eq!(expand_newlines("\n"), "\r\n");
    assert_eq!(expand_newlines("a\r\nb"), "a\r\r\nb");
}

#[test]
fn written_bytes_are_read_as_text() {
    assert_eq!(write_command(b"one\ntwo"), write(b"one\r\ntwo"));
    assert_eq!(write_command("h\u{e9}\n".as_bytes()), write("h\u{e9}\r\n".as_bytes()));
}

#[test]
fn bytes_that_are_no_text_are_replaced() {
    assert_eq!(write_command(&[b'a', 0xff, b'\n']), write("a\u{fffd}\r\n".as_bytes()));
}

#[test]
fn printing_writes_and_flushes() {
    let commands = print_commands("ok\r\n");
    assert_eq!(commands, vec![write(b"ok\r\n"), OutputCommand::Flush]);
    let mut mux = Multiplexer::new();
    assert_eq!(mux.drain(&commands), Ok(vec![b"ok\r\n".to_vec()]));
}
