use flexi_logger::{write_buffered, Fragment, Rendering, ScratchBuffer, Staging};

fn text(s: &str) -> Fragment {
    Fragment::Text(s.as_bytes().to_vec())
}

fn record(fragments: Vec<Fragment>) -> Rendering {
    Rendering { fragments }
}

#[test]
fn nested_record_is_written_before_the_outer_one() {
    let mut scratch = ScratchBuffer::new();
    let mut sink = Vec::new();
    let inner = record(vec![text("inner message")]);
    let outer = record(vec![
        text("outer "),
        Fragment::Nested(inner),
        text("message"),
    ]);
    write_buffered(&mut scratch, &outer, &mut sink);
    assert_eq!(
        String::from_utf8(sink).unwrap(),
        "inner message\nouter message\n"
    );
}

#[test]
fn nesting_of_any_depth_keeps_every_line_whole() {
    let mut scratch = ScratchBuffer::new();
    let mut sink = b"before\n".to_vec();
    let deepest = record(vec![text("c")]);
    let middle = record(vec![text("b1"), Fragment::Nested(deepest), text("b2")]);
    let sibling = record(vec![text("d")]);
    let outer = record(vec![
        text("a1"),
        Fragment::Nested(middle),
        text("a2"),
        Fragment::Nested(sibling),
        text("a3"),
    ]);
    write_buffered(&mut scratch, &outer, &mut sink);
    assert_eq!(
        String::from_utf8(sink).unwrap(),
        "before\nc\nb1b2\nd\na1a2a3\n"
    );
}

#[test]
fn scratch_buffer_is_free_again_after_a_record() {
    let mut scratch = ScratchBuffer::new();
    let mut sink = Vec::new();
    write_buffered(&mut scratch, &record(vec![text("one")]), &mut sink);
    write_buffered(&mut scratch, &record(vec![]), &mut sink);
    write_buffered(&mut scratch, &record(vec![text("two")]), &mut sink);
    assert_eq!(String::from_utf8(sink).unwrap(), "one\n\ntwo\n");
    match scratch.acquire() {
        Staging::Shared(buffer) => assert!(buffer.is_empty()),
        Staging::Private(_) => panic!("the scratch buffer should be free"),
    }
}

#[test]
fn second_borrower_gets_a_buffer_of_its_own() {
    let mut scratch = ScratchBuffer::new();
    let mut first = scratch.acquire();
    first.extend(b"partial");
    let mut second = scratch.acquire();
    assert!(matches!(first, Staging::Shared(_)));
    assert!(matches!(second, Staging::Private(_)));
    assert!(second.as_slice().is_empty());
    second.extend(b"nested");
    assert_eq!(second.as_slice(), b"nested");
    scratch.release(second);
    assert!(matches!(scratch.acquire(), Staging::Private(_)));
    assert_eq!(first.as_slice(), b"partial");
    scratch.release(first);
    match scratch.acquire() {
        Staging::Shared(buffer) => assert!(buffer.is_empty()),
        Staging::Private(_) => panic!("the scratch buffer should be free"),
    }
}
