use hyper_usse::event::heartbeat;
use hyper_usse::EventBuilder;

#[test]
fn data_only_frame_has_data_lines_and_one_blank_line() {
    for data in ["", "x", "a\nb", "a\n\nb", "a\r\nb\rc", "tail\n"] {
        let frame = EventBuilder::new(data).build();
        assert!(frame.ends_with("\n\n"));
        assert!(!frame.ends_with("\n\n\n"));
        let body = &frame[..frame.len() - 2];
        for line in body.split('\n') {
            assert!(line.starts_with("data: "), "line {:?} of {:?}", line, frame);
        }
        assert!(!frame.contains("id:"));
        assert!(!frame.contains("event:"));
    }
}

#[test]
fn full_event_frame() {
    let frame = EventBuilder::new("a\nb").id("1").event_type("msg").build();
    assert_eq!(frame, "id: 1\nevent: msg\ndata: a\ndata: b\n\n");
}

#[test]
fn empty_data_frame() {
    assert_eq!(EventBuilder::new("").build(), "data: \n\n");
}

#[test]
fn heartbeat_frame() {
    assert_eq!(heartbeat(), ":\n\n");
}

#[test]
fn empty_lines_are_kept() {
    assert_eq!(EventBuilder::new("a\n\nb").build(), "data: a\ndata: \ndata: b\n\n");
    assert_eq!(EventBuilder::new("a\n").build(), "data: a\ndata: \n\n");
}

#[test]
fn every_line_break_form_splits_once() {
    assert_eq!(EventBuilder::new("a\r\nb").build(), "data: a\ndata: b\n\n");
    assert_eq!(EventBuilder::new("a\rb").build(), "data: a\ndata: b\n\n");
    assert_eq!(EventBuilder::new("a\r\rb").build(), "data: a\ndata: \ndata: b\n\n");
    assert_eq!(EventBuilder::new("a\n\rb").build(), "data: a\ndata: \ndata: b\n\n");
}

#[test]
fn id_and_type_are_cut_at_a_line_break() {
    let frame = EventBuilder::new("d").id("7\nid: 8").event_type("up\r\ndate").build();
    assert_eq!(frame, "id: 7\nevent: up\ndata: d\n\n");
}

#[test]
fn non_ascii_text_is_copied() {
    let frame = EventBuilder::new("héllo\nwörld").id("ü").build();
    assert_eq!(frame, "id: ü\ndata: héllo\ndata: wörld\n\n");
}

#[test]
fn builder_setters() {
    let e = EventBuilder::new("one").data("two").id("i").event_type("t");
    assert_eq!(e.data, "two");
    assert_eq!(e.id, Some("i"));
    assert_eq!(e.event_type, Some("t"));
    assert_eq!(e.build(), "id: i\nevent: t\ndata: two\n\n");
    let cleared = e.clear_id();
    assert_eq!(cleared.id, None);
    assert_eq!(cleared.event_type, Some("t"));
    assert_eq!(cleared.build(), "event: t\ndata: two\n\n");
    let bare = cleared.clear_type();
    assert_eq!(bare, EventBuilder::new("two"));
    assert_eq!(bare.build(), "data: two\n\n");
}
