use mcpi_rs::connection::Connection;

fn args(parts: &[&str]) -> Vec<String> {
    parts.iter().map(|p| p.to_string()).collect()
}

#[test]
fn send_produces_name_parens_args_newline() {
    let mut c = Connection::new();
    c.send("world.getBlock", &args(&["12,35,64"]));
    assert_eq!(c.take_delivered(), "world.getBlock(12,35,64)\n");
    c.send("world.getHeight", &args(&["10", "-3"]));
    assert_eq!(c.take_delivered(), "world.getHeight(10,-3)\n");
    c.send("chat.post", &args(&["a", "b", "c"]));
    assert_eq!(c.take_delivered(), "chat.post(a,b,c)\n");
}

#[test]
fn send_with_no_arguments_produces_empty_parens() {
    let mut c = Connection::new();
    c.send("camera.mode.setNormal", &args(&[]));
    assert_eq!(c.take_delivered(), "camera.mode.setNormal()\n");
}

#[test]
fn send_s_produces_text_and_newline_unmodified() {
    let mut c = Connection::new();
    c.send_s("player.getPos()");
    assert_eq!(c.take_delivered(), "player.getPos()\n");
    c.send_s("");
    assert_eq!(c.take_delivered(), "\n");
    c.send_s("odd text, (no framing)");
    assert_eq!(c.take_delivered(), "odd text, (no framing)\n");
}

#[test]
fn receive_returns_one_line_and_consumes_its_newline() {
    let mut c = Connection::new();
    c.feed("abc\ndef\n");
    assert_eq!(c.receive(), Some(String::from("abc")));
    assert_eq!(c.receive(), Some(String::from("def")));
    assert_eq!(c.receive(), None);
    assert_eq!(c.inbound_len(), 0);
}

#[test]
fn receive_waits_for_a_complete_line() {
    let mut c = Connection::new();
    c.feed("xy");
    assert_eq!(c.receive(), None);
    assert_eq!(c.inbound_len(), 2);
    c.feed("z\nrest");
    assert_eq!(c.receive(), Some(String::from("xyz")));
    assert_eq!(c.inbound_len(), 4);
    assert_eq!(c.receive(), None);
}

#[test]
fn receive_returns_an_empty_line() {
    let mut c = Connection::new();
    c.feed("\nnext\n");
    assert_eq!(c.receive(), Some(String::new()));
    assert_eq!(c.receive(), Some(String::from("next")));
}

#[test]
fn drain_discards_inbound_text_and_is_idempotent() {
    let mut c = Connection::new();
    c.feed("stale bytes");
    c.drain();
    assert_eq!(c.inbound_len(), 0);
    c.drain();
    assert_eq!(c.inbound_len(), 0);
    assert_eq!(c.receive(), None);
    assert!(c.is_open());
}

#[test]
fn send_drains_stale_inbound_text() {
    let mut c = Connection::new();
    c.feed("unsolicited chatter\n");
    c.send("world.setBlock", &args(&["1,2,3,5"]));
    assert_eq!(c.inbound_len(), 0);
    assert_eq!(c.receive(), None);
}

#[test]
fn auto_flush_disabled_batches_until_explicit_flush() {
    let mut c = Connection::new();
    c.auto_flush(false);
    c.send("chat.post", &args(&["one"]));
    c.send("chat.post", &args(&["two"]));
    assert_eq!(c.take_delivered(), "");
    c.flush();
    assert_eq!(c.take_delivered(), "chat.post(one)\nchat.post(two)\n");
}

#[test]
fn auto_flush_enabled_delivers_each_send_at_once() {
    let mut c = Connection::new();
    c.send("chat.post", &args(&["one"]));
    assert_eq!(c.take_delivered(), "chat.post(one)\n");
    c.send("chat.post", &args(&["two"]));
    assert_eq!(c.take_delivered(), "chat.post(two)\n");
}

#[test]
fn enabling_auto_flush_flushes_as_a_synchronization_point() {
    let mut c = Connection::new();
    c.auto_flush(false);
    c.send_s("pending line");
    assert_eq!(c.take_delivered(), "");
    c.auto_flush(true);
    assert_eq!(c.take_delivered(), "pending line\n");
}

#[test]
fn a_sent_line_is_received_back_exactly() {
    // What one peer frames, the other unframes: send_s + receive round trip.
    let mut sender = Connection::new();
    let mut receiver = Connection::new();
    sender.send("world.getBlock", &args(&["0,64,0"]));
    sender.send_s("player.getPos()");
    receiver.feed(&sender.take_delivered());
    assert_eq!(receiver.receive(), Some(String::from("world.getBlock(0,64,0)")));
    assert_eq!(receiver.receive(), Some(String::from("player.getPos()")));
    assert_eq!(receiver.receive(), None);
}

#[test]
fn close_marks_the_connection_closed() {
    let mut c = Connection::new();
    assert!(c.is_open());
    c.close();
    assert!(!c.is_open());
}
